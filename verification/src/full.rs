//! The whole document: every section as it stands in the text.

use vstd::prelude::*;
use std::str::FromStr;
use crate::error::{ParseError, SerializeError};
use crate::format::{fault_of, spec_parse, spec_serialize, well_formed};
use crate::parser::read_document;
use crate::round_trip::lemma_round_trip;
use crate::serializer::{check, write_document};
use crate::soundness::lemma_parsed_well_formed;
use crate::source::{SeL4Source, SourceView};
use crate::table::{ConfigTable, ContextTable, ContextsView, TableView};
use crate::views::{agrees, opt_view};

verus! {

/// The configuration keys of a document, by bucket.
#[derive(Debug, PartialEq, Eq)]
pub struct Config {
    /// The keys that always apply.
    pub shared_config: ConfigTable,
    /// The keys of a debug build.
    pub debug_config: ConfigTable,
    /// The keys of a release build.
    pub release_config: ConfigTable,
    /// The keys of each named context, in the order of the document.
    pub contextual_config: ContextTable,
}

/// What a `Config` holds.
pub struct ConfigView {
    pub shared_config: TableView,
    pub debug_config: TableView,
    pub release_config: TableView,
    pub contextual_config: ContextsView,
}

impl View for Config {
    type V = ConfigView;

    open spec fn view(&self) -> ConfigView {
        ConfigView {
            shared_config: self.shared_config@,
            debug_config: self.debug_config@,
            release_config: self.release_config@,
            contextual_config: self.contextual_config@,
        }
    }
}

/// The `sel4` table of a document.
#[derive(Debug, PartialEq, Eq)]
pub struct SeL4 {
    /// The platform that is meant where none is selected.
    pub default_platform: Option<String>,
    pub source: SeL4Source,
    pub config: Config,
}

/// What a `SeL4` holds.
pub struct SeL4View {
    pub default_platform: Option<Seq<char>>,
    pub source: SourceView,
    pub config: ConfigView,
}

impl View for SeL4 {
    type V = SeL4View;

    open spec fn view(&self) -> SeL4View {
        SeL4View {
            default_platform: opt_view(self.default_platform),
            source: self.source@,
            config: self.config@,
        }
    }
}

/// A whole document.
#[derive(Debug, PartialEq, Eq)]
pub struct Full {
    pub sel4: SeL4,
}

/// What a `Full` holds.
pub struct FullView {
    pub sel4: SeL4View,
}

impl View for Full {
    type V = FullView;

    open spec fn view(&self) -> FullView {
        FullView { sel4: self.sel4@ }
    }
}

impl Clone for Config {
    fn clone(&self) -> (r: Self)
        ensures
            r@ == self@,
    {
        Config {
            shared_config: self.shared_config.clone(),
            debug_config: self.debug_config.clone(),
            release_config: self.release_config.clone(),
            contextual_config: self.contextual_config.clone(),
        }
    }
}

impl Clone for SeL4 {
    fn clone(&self) -> (r: Self)
        ensures
            r@ == self@,
    {
        let default_platform = match &self.default_platform {
            Some(p) => Some(p.clone()),
            None => None,
        };
        SeL4 { default_platform, source: self.source.clone(), config: self.config.clone() }
    }
}

impl Clone for Full {
    fn clone(&self) -> (r: Self)
        ensures
            r@ == self@,
    {
        Full { sel4: self.sel4.clone() }
    }
}

impl Full {
    /// Reads a document from its text: the document that the text describes,
    /// or the first line that is refused, or why the source fields describe
    /// no source.
    pub fn parse(text: &str) -> (r: Result<Full, ParseError>)
        ensures
            agrees(r, spec_parse(text@)),
            r matches Ok(doc) ==> well_formed(doc@),
    {
        proof {
            lemma_parsed_well_formed(text@);
        }
        read_document(text)
    }

    /// Writes the document: its one text, or what keeps it from being
    /// written.
    pub fn to_toml_string(&self) -> (r: Result<String, SerializeError>)
        ensures
            match fault_of(self@) {
                Some(e) => r matches Err(g) && g == e,
                None => r matches Ok(text) && text@ == spec_serialize(self@),
            },
            r matches Ok(text) ==> spec_parse(text@) == Ok::<FullView, ParseError>(self@),
    {
        match check(self) {
            Some(e) => Err(e),
            None => {
                proof {
                    lemma_round_trip(self@);
                }
                Ok(write_document(self))
            },
        }
    }
}

impl FromStr for Full {
    type Err = ParseError;

    fn from_str(text: &str) -> (r: Result<Full, ParseError>)
        ensures
            agrees(r, spec_parse(text@)),
            r matches Ok(doc) ==> well_formed(doc@),
    {
        Full::parse(text)
    }
}

} // verus!
