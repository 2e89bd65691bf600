//! A document resolved for one context: the shared keys, with the keys of the
//! kind of build, of the target and of the platform put over them in that
//! order.

use vstd::prelude::*;
use crate::error::{ImportError, ResolutionError};
use crate::format::{spec_parse, tables_keyed};
use crate::full::{Config, ConfigView, Full, FullView, SeL4};
use crate::source::{SeL4Source, SourceView};
use crate::table::{
    has_key, keyed, lemma_find_range, lemma_overlay_keyed, lemma_overlay_lookup, lookup, overlay,
    ConfigTable, ContextsView, TableView,
};
use crate::value::ValueView;
use crate::views::{agrees, opt_view};

verus! {

/// The selectors that a document was resolved for.
#[derive(Debug, PartialEq, Eq)]
pub struct Context {
    pub target: String,
    pub platform: String,
    pub is_debug: bool,
}

/// What a `Context` holds.
pub struct ContextView {
    pub target: Seq<char>,
    pub platform: Seq<char>,
    pub is_debug: bool,
}

impl View for Context {
    type V = ContextView;

    open spec fn view(&self) -> ContextView {
        ContextView { target: self.target@, platform: self.platform@, is_debug: self.is_debug }
    }
}

impl Clone for Context {
    fn clone(&self) -> (r: Self)
        ensures
            r@ == self@,
    {
        Context {
            target: self.target.clone(),
            platform: self.platform.clone(),
            is_debug: self.is_debug,
        }
    }
}

/// A document resolved for one context.
#[derive(Debug, PartialEq, Eq)]
pub struct Contextualized {
    pub sel4_source: SeL4Source,
    pub context: Context,
    pub sel4_config: ConfigTable,
}

/// What a `Contextualized` holds.
pub struct ContextualizedView {
    pub sel4_source: SourceView,
    pub context: ContextView,
    pub sel4_config: TableView,
}

impl View for Contextualized {
    type V = ContextualizedView;

    open spec fn view(&self) -> ContextualizedView {
        ContextualizedView {
            sel4_source: self.sel4_source@,
            context: self.context@,
            sel4_config: self.sel4_config@,
        }
    }
}

impl Clone for Contextualized {
    fn clone(&self) -> (r: Self)
        ensures
            r@ == self@,
    {
        Contextualized {
            sel4_source: self.sel4_source.clone(),
            context: self.context.clone(),
            sel4_config: self.sel4_config.clone(),
        }
    }
}

/// The platform that is meant: the one selected, else the default of the
/// document.
pub open spec fn effective_platform(doc: FullView, platform: Option<Seq<char>>) -> Option<
    Seq<char>,
> {
    match platform {
        Some(p) => Some(p),
        None => doc.sel4.default_platform,
    }
}

/// The keys of the context `name`: none where the document has no such
/// context.
pub open spec fn layer_of(cs: ContextsView, name: Seq<char>) -> TableView {
    match lookup(cs, name) {
        Some(t) => t,
        None => Seq::empty(),
    }
}

/// The keys of the kind of build.
pub open spec fn build_layer(c: ConfigView, is_debug: bool) -> TableView {
    if is_debug {
        c.debug_config
    } else {
        c.release_config
    }
}

/// The shared keys with the keys of the kind of build and of the target put
/// over them.
pub open spec fn below_platform(c: ConfigView, target: Seq<char>, is_debug: bool) -> TableView {
    overlay(
        overlay(c.shared_config, build_layer(c, is_debug)),
        layer_of(c.contextual_config, target),
    )
}

/// The keys that hold for a target, a kind of build and a platform.
pub open spec fn merged(c: ConfigView, target: Seq<char>, is_debug: bool, platform: Seq<char>) -> TableView {
    overlay(below_platform(c, target, is_debug), layer_of(c.contextual_config, platform))
}

/// The document resolved for a target, a kind of build and perhaps a
/// platform. Without a platform, selected or default, there is none.
pub open spec fn resolve(
    doc: FullView,
    target: Seq<char>,
    is_debug: bool,
    platform: Option<Seq<char>>,
) -> Result<ContextualizedView, ResolutionError> {
    match effective_platform(doc, platform) {
        None => Err(ResolutionError::MissingPlatform),
        Some(p) => Ok(
            ContextualizedView {
                sel4_source: doc.sel4.source,
                context: ContextView { target: target, platform: p, is_debug: is_debug },
                sel4_config: merged(doc.sel4.config, target, is_debug, p),
            },
        ),
    }
}

/// The document of a text, resolved.
pub open spec fn resolve_text(
    text: Seq<char>,
    target: Seq<char>,
    is_debug: bool,
    platform: Option<Seq<char>>,
) -> Result<ContextualizedView, ImportError> {
    match spec_parse(text) {
        Err(e) => Err(ImportError::Parse(e)),
        Ok(doc) => match resolve(doc, target, is_debug, platform) {
            Err(e) => Err(ImportError::Resolution(e)),
            Ok(c) => Ok(c),
        },
    }
}

/// The value that the layers give to a key: that of the platform, else that
/// of the target, else that of the kind of build, else the shared one.
pub open spec fn layered(
    c: ConfigView,
    target: Seq<char>,
    is_debug: bool,
    platform: Seq<char>,
    key: Seq<char>,
) -> Option<ValueView> {
    if has_key(layer_of(c.contextual_config, platform), key) {
        lookup(layer_of(c.contextual_config, platform), key)
    } else if has_key(layer_of(c.contextual_config, target), key) {
        lookup(layer_of(c.contextual_config, target), key)
    } else if has_key(build_layer(c, is_debug), key) {
        lookup(build_layer(c, is_debug), key)
    } else {
        lookup(c.shared_config, key)
    }
}

/// Puts every entry of `layer` over `base`.
fn put_over(base: &mut ConfigTable, layer: &ConfigTable)
    ensures
        final(base)@ == overlay(old(base)@, layer@),
{
    let mut i: usize = 0;
    assert(layer@.skip(0) =~= layer@);
    while i < layer.len()
        invariant
            i <= layer@.len(),
            overlay(base@, layer@.skip(i as int)) == overlay(old(base)@, layer@),
        decreases layer@.len() - i,
    {
        match layer.entry(i) {
            Some((key, value)) => {
                proof {
                    assert(layer@.skip(i as int).drop_first() =~= layer@.skip(i + 1));
                    assert(layer@.skip(i as int)[0] == layer@[i as int]);
                }
                base.insert(key.clone(), value.clone());
            },
            None => {},
        }
        i = i + 1;
    }
}

impl Contextualized {
    /// Resolves a document for a target, a kind of build and perhaps a
    /// platform: each key has the value of the last layer that gives it one.
    pub fn from_full(f: Full, target: String, is_debug: bool, platform: Option<String>) -> (r:
        Result<Contextualized, ResolutionError>)
        ensures
            agrees(r, resolve(f@, target@, is_debug, opt_view(platform))),
            r matches Ok(c) ==> keyed(c@.sel4_config) && forall|key: Seq<char>|
                #[trigger] lookup(c@.sel4_config, key) == layered(
                    f@.sel4.config,
                    target@,
                    is_debug,
                    c@.context.platform,
                    key,
                ),
    {
        let ghost c = f@.sel4.config;
        let Full { sel4 } = f;
        let SeL4 { default_platform, source, config } = sel4;
        let chosen = match platform {
            Some(p) => Some(p),
            None => default_platform,
        };
        match chosen {
            None => Err(ResolutionError::MissingPlatform),
            Some(p) => {
                let Config { shared_config, debug_config, release_config, contextual_config } =
                    config;
                let mut merged = shared_config;
                proof {
                    use_type_invariant(&debug_config);
                    use_type_invariant(&release_config);
                }
                if is_debug {
                    put_over(&mut merged, &debug_config);
                } else {
                    put_over(&mut merged, &release_config);
                }
                let ghost first = merged@;
                match contextual_config.get(target.as_str()) {
                    Some(t) => {
                        proof {
                            use_type_invariant(t);
                        }
                        put_over(&mut merged, t);
                    },
                    None => {},
                }
                let ghost second = merged@;
                match contextual_config.get(p.as_str()) {
                    Some(t) => {
                        proof {
                            use_type_invariant(t);
                        }
                        put_over(&mut merged, t);
                    },
                    None => {},
                }
                proof {
                    use_type_invariant(&merged);
                    let target_layer = layer_of(c.contextual_config, target@);
                    let platform_layer = layer_of(c.contextual_config, p@);
                    assert forall|key: Seq<char>| #[trigger]
                        lookup(merged@, key) == layered(c, target@, is_debug, p@, key) by {
                        lemma_overlay_lookup(c.shared_config, build_layer(c, is_debug), key);
                        lemma_overlay_lookup(first, target_layer, key);
                        lemma_overlay_lookup(second, platform_layer, key);
                    }
                }
                Ok(
                    Contextualized {
                        sel4_source: source,
                        context: Context { target, platform: p, is_debug },
                        sel4_config: merged,
                    },
                )
            },
        }
    }

    /// Reads a document from its text and resolves it.
    pub fn from_str(text: &str, target: String, is_debug: bool, platform: Option<String>) -> (r:
        Result<Contextualized, ImportError>)
        ensures
            agrees(r, resolve_text(text@, target@, is_debug, opt_view(platform))),
    {
        match Full::parse(text) {
            Err(e) => Err(ImportError::Parse(e)),
            Ok(doc) => match Contextualized::from_full(doc, target, is_debug, platform) {
                Err(e) => Err(ImportError::Resolution(e)),
                Ok(c) => Ok(c),
            },
        }
    }
}

/// The keys of a context repeat no key, where no table of the document does.
pub proof fn lemma_layer_keyed(cs: ContextsView, name: Seq<char>)
    requires
        forall|i: int| 0 <= i < cs.len() ==> keyed((#[trigger] cs[i]).1),
    ensures
        keyed(layer_of(cs, name)),
{
    lemma_find_range(cs, name, 0);
}

/// A later layer wins: of the shared keys, the keys of the kind of build, of
/// the target and of the platform, each key has the value of the last layer
/// that gives it one, and a key that no layer gives is not there.
pub proof fn merge_precedence(
    c: ConfigView,
    target: Seq<char>,
    is_debug: bool,
    platform: Seq<char>,
    key: Seq<char>,
)
    requires
        tables_keyed(c),
    ensures
        lookup(merged(c, target, is_debug, platform), key) == layered(
            c,
            target,
            is_debug,
            platform,
            key,
        ),
        has_key(merged(c, target, is_debug, platform), key) == (has_key(
            layer_of(c.contextual_config, platform),
            key,
        ) || has_key(layer_of(c.contextual_config, target), key) || has_key(
            build_layer(c, is_debug),
            key,
        ) || has_key(c.shared_config, key)),
        keyed(merged(c, target, is_debug, platform)),
{
    let cs = c.contextual_config;
    let build = build_layer(c, is_debug);
    let first = overlay(c.shared_config, build);
    let second = overlay(first, layer_of(cs, target));
    lemma_layer_keyed(cs, target);
    lemma_layer_keyed(cs, platform);
    lemma_overlay_lookup(c.shared_config, build, key);
    lemma_overlay_lookup(first, layer_of(cs, target), key);
    lemma_overlay_lookup(second, layer_of(cs, platform), key);
    lemma_overlay_keyed(c.shared_config, build);
    lemma_overlay_keyed(first, layer_of(cs, target));
    lemma_overlay_keyed(second, layer_of(cs, platform));
}

/// Without a selected platform a document is resolved for its default
/// platform: as if that one had been selected. Without either, it is not
/// resolved.
pub proof fn platform_falls_back(doc: FullView, target: Seq<char>, is_debug: bool)
    ensures
        resolve(doc, target, is_debug, None) == resolve(
            doc,
            target,
            is_debug,
            doc.sel4.default_platform,
        ),
        doc.sel4.default_platform matches Some(p) ==> (resolve(
            doc,
            target,
            is_debug,
            None,
        ) matches Ok(r) && r.context.platform == p),
        doc.sel4.default_platform is None ==> resolve(doc, target, is_debug, None) == Err::<
            ContextualizedView,
            ResolutionError,
        >(ResolutionError::MissingPlatform),
{
}

/// A document resolved for a platform other than its default differs from
/// the document resolved for the default: in the platform, and in the value
/// of every key that one of the two contexts gives and the other does not,
/// unless the layers below already give that key that value.
pub proof fn platforms_differ(
    doc: FullView,
    target: Seq<char>,
    is_debug: bool,
    platform: Seq<char>,
    key: Seq<char>,
)
    requires
        tables_keyed(doc.sel4.config),
        doc.sel4.default_platform matches Some(d) && d != platform,
        has_key(layer_of(doc.sel4.config.contextual_config, platform), key) != has_key(
            layer_of(doc.sel4.config.contextual_config, doc.sel4.default_platform->0),
            key,
        ),
        lookup(below_platform(doc.sel4.config, target, is_debug), key) != if has_key(
            layer_of(doc.sel4.config.contextual_config, platform),
            key,
        ) {
            lookup(layer_of(doc.sel4.config.contextual_config, platform), key)
        } else {
            lookup(
                layer_of(doc.sel4.config.contextual_config, doc.sel4.default_platform->0),
                key,
            )
        },
    ensures
        resolve(doc, target, is_debug, Some(platform)) is Ok,
        resolve(doc, target, is_debug, None) is Ok,
        resolve(doc, target, is_debug, Some(platform))->Ok_0.context != resolve(
            doc,
            target,
            is_debug,
            None,
        )->Ok_0.context,
        lookup(resolve(doc, target, is_debug, Some(platform))->Ok_0.sel4_config, key) != lookup(
            resolve(doc, target, is_debug, None)->Ok_0.sel4_config,
            key,
        ),
        resolve(doc, target, is_debug, Some(platform))->Ok_0.sel4_config != resolve(
            doc,
            target,
            is_debug,
            None,
        )->Ok_0.sel4_config,
{
    let c = doc.sel4.config;
    let cs = c.contextual_config;
    let d = doc.sel4.default_platform->0;
    let below = below_platform(c, target, is_debug);
    lemma_layer_keyed(cs, platform);
    lemma_layer_keyed(cs, d);
    lemma_overlay_lookup(below, layer_of(cs, platform), key);
    lemma_overlay_lookup(below, layer_of(cs, d), key);
}

} // verus!
