//! Parsing of `extensions.cfg`: the file is lower-cased with its
//! comments stripped and run through the key-value-pair parser. The
//! sections this layer interprets are left to downstream consumers;
//! here every named section is surfaced as a warning so that content
//! problems stay visible.

use crate::kvp::{animated_like, parse_kvp_file, FromKVPFile, KVPFile, KVPGenericWarning,
    KVPGenericWarningKind, KVPSymbols, SectionV};
use crate::text::{lower_of, lowercase, strip_comments, strip_comments_of};
use crate::train_dat::{warns_v, WarnV};
use vstd::prelude::*;

verus! {

/// A parsed `extensions.cfg`. The structured interpretation of its
/// sections lives with the consumers of the format.
#[derive(Debug, Clone, PartialEq, Eq, Structural, Default)]
pub struct ParsedExtensionsCfg {}

/// The warnings interpreting the sections yields: one unknown-section
/// warning per named section.
pub open spec fn extensions_fold(sections: Seq<SectionV>, k: int) -> Seq<WarnV>
    decreases sections.len() - k,
{
    if k < 0 || k >= sections.len() {
        Seq::empty()
    } else {
        match sections[k].name {
            None => extensions_fold(sections, k + 1),
            Some(name) => seq![
                WarnV::UnknownSection { line: sections[k].line, name },
            ] + extensions_fold(sections, k + 1),
        }
    }
}

impl FromKVPFile for ParsedExtensionsCfg {
    type Warnings = KVPGenericWarning;

    fn from_kvp_file(k: &KVPFile) -> (Self, Vec<KVPGenericWarning>) {
        ParsedExtensionsCfg::build(k)
    }
}

impl ParsedExtensionsCfg {
    /// Interprets a parsed key-value-pair file.
    pub fn build(file: &KVPFile) -> (r: (ParsedExtensionsCfg, Vec<KVPGenericWarning>))
        ensures
            warns_v(r.1@) == extensions_fold(file@.sections, 0),
    {
        ParsedExtensionsCfg::build_rec(file, 0)
    }

    fn build_rec(file: &KVPFile, k: usize) -> (r: (ParsedExtensionsCfg, Vec<KVPGenericWarning>))
        requires
            k <= file.sections@.len(),
        ensures
            warns_v(r.1@) == extensions_fold(file@.sections, k as int),
        decreases file.sections@.len() - k,
    {
        let ghost sectionsv = file@.sections;
        proof {
            assert(sectionsv.len() == file.sections@.len());
            if k < file.sections@.len() {
                assert(sectionsv[k as int] == file.sections@[k as int]@);
            }
        }
        if k == file.sections.len() {
            let r = (ParsedExtensionsCfg {}, Vec::new());
            proof {
                assert(warns_v(r.1@) =~= Seq::<WarnV>::empty());
            }
            return r;
        }
        match &file.sections[k].name {
            None => ParsedExtensionsCfg::build_rec(file, k + 1),
            Some(name) => {
                let (res, rest) = ParsedExtensionsCfg::build_rec(file, k + 1);
                let ghost restv = rest@;
                let w = KVPGenericWarning {
                    span: file.sections[k].span,
                    kind: KVPGenericWarningKind::UnknownSection { name: name.clone() },
                };
                let ghost wv = w@;
                let mut all: Vec<KVPGenericWarning> = Vec::new();
                all.push(w);
                let mut r2 = rest;
                all.append(&mut r2);
                proof {
                    assert(all@ =~= seq![all@[0]] + restv);
                    assert(warns_v(all@) =~= seq![wv] + warns_v(restv));
                }
                (res, all)
            },
        }
    }
}

/// What parsing an `extensions.cfg` text yields.
pub open spec fn extensions_cfg_of(input: Seq<char>) -> Seq<WarnV> {
    let cleaned = lower_of(strip_comments_of(input, ';', 0));
    let sections = crate::kvp::kvp_file_of(
        cleaned,
        KVPSymbols { section_open: '[', section_close: ']' },
    );
    extensions_fold(sections, 0)
}

/// Parses an `extensions.cfg`: comments are stripped, the text is
/// lower-cased, and the key-value-pair parser runs over it.
pub fn parse_extensions_cfg(input: &str) -> (r: (ParsedExtensionsCfg, Vec<KVPGenericWarning>))
    ensures
        warns_v(r.1@) == extensions_cfg_of(input@),
{
    let stripped = strip_comments(input, ';');
    let lower = lowercase(stripped.as_str());
    let kvp_file = parse_kvp_file(lower.as_str(), animated_like());
    ParsedExtensionsCfg::build(&kvp_file)
}

} // verus!
