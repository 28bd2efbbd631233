//! Parsing of `train.dat`: the file is lower-cased with its comments
//! stripped, run through the key-value-pair parser, and interpreted.
//! Only the version header is interpreted here; every named section is
//! reported as unknown.

use crate::kvp::{dat_like, parse_kvp_file, FromKVPFile, FromKVPSection, KVPFile,
    KVPGenericWarning, KVPGenericWarningKind, KVPSection, SectionV, ValueData, ValueV};
use crate::text::{lower_of, lowercase, strip_comments, strip_comments_of};
use vstd::prelude::*;

verus! {

/// The format version a `train.dat` declares.
#[derive(Debug, Clone)]
pub enum Version {
    BVE120,
    BVE121,
    BVE122,
    BVE2,
    OpenBVE { version: String },
}

/// Mathematical image of a [`Version`].
pub ghost enum VersionV {
    BVE120,
    BVE121,
    BVE122,
    BVE2,
    OpenBVE { version: Seq<char> },
}

impl View for Version {
    type V = VersionV;

    open spec fn view(&self) -> VersionV {
        match self {
            Version::BVE120 => VersionV::BVE120,
            Version::BVE121 => VersionV::BVE121,
            Version::BVE122 => VersionV::BVE122,
            Version::BVE2 => VersionV::BVE2,
            Version::OpenBVE { version } => VersionV::OpenBVE { version: version@ },
        }
    }
}

impl Default for Version {
    fn default() -> (r: Self)
        ensures
            r@ == VersionV::BVE2,
    {
        Self::BVE2
    }
}

/// What a version string denotes, if anything.
pub open spec fn version_of(v: Seq<char>) -> Option<VersionV> {
    if v == "bve1200000"@ {
        Some(VersionV::BVE120)
    } else if v == "bve1210000"@ {
        Some(VersionV::BVE121)
    } else if v == "bve1220000"@ {
        Some(VersionV::BVE122)
    } else if v == "bve2000000"@ || v == "openbve"@ {
        Some(VersionV::BVE2)
    } else if v.len() >= 7 && v.take(7) == "openbve"@ {
        Some(VersionV::OpenBVE { version: v.skip(7) })
    } else {
        None
    }
}

impl Version {
    /// Reads a version string.
    pub fn parse(value: &str) -> (r: Option<Version>)
        ensures
            match r {
                Some(v) => version_of(value@) == Some(v@),
                None => version_of(value@) is None,
            },
    {
        let v = String::from_str(value);
        if v == String::from_str("bve1200000") {
            Some(Version::BVE120)
        } else if v == String::from_str("bve1210000") {
            Some(Version::BVE121)
        } else if v == String::from_str("bve1220000") {
            Some(Version::BVE122)
        } else if v == String::from_str("bve2000000") || v == String::from_str("openbve") {
            Some(Version::BVE2)
        } else {
            let chars = crate::text::chars_vec(value);
            let prefix = "openbve";
            let pc = crate::text::chars_vec(prefix);
            proof {
                reveal_strlit("openbve");
            }
            if chars.len() >= 7 {
                let mut k: usize = 0;
                let mut matches = true;
                proof {
                    assert(chars@.take(0) =~= pc@.take(0));
                }
                while k < 7
                    invariant
                        k <= 7,
                        pc@ == "openbve"@,
                        pc@.len() == 7,
                        chars@.len() >= 7,
                        matches == (chars@.take(k as int) == pc@.take(k as int)),
                    decreases 7 - k,
                {
                    proof {
                        assert(chars@.take(k as int + 1).drop_last() =~= chars@.take(k as int));
                        assert(pc@.take(k as int + 1).drop_last() =~= pc@.take(k as int));
                    }
                    if chars[k] != pc[k] {
                        matches = false;
                        proof {
                            assert(chars@.take(k as int + 1) != pc@.take(k as int + 1)) by {
                                if chars@.take(k as int + 1) == pc@.take(k as int + 1) {
                                    assert(chars@.take(k as int + 1)[k as int] == pc@.take(
                                        k as int + 1,
                                    )[k as int]);
                                }
                            }
                        }
                    } else {
                        proof {
                            if matches {
                                assert(chars@.take(k as int + 1) =~= pc@.take(k as int + 1));
                            } else {
                                assert(chars@.take(k as int) != pc@.take(k as int));
                                assert(chars@.take(k as int + 1) != pc@.take(k as int + 1)) by {
                                    if chars@.take(k as int + 1) == pc@.take(k as int + 1) {
                                        assert(chars@.take(k as int + 1).drop_last() == pc@.take(
                                            k as int + 1,
                                        ).drop_last());
                                    }
                                }
                            }
                        }
                    }
                    k = k + 1;
                }
                proof {
                    assert(pc@.take(7) =~= pc@);
                }
                if matches {
                    let rest = crate::text::subvec(&chars, 7, chars.len());
                    proof {
                        assert(rest@ =~= value@.skip(7));
                    }
                    Some(
                        Version::OpenBVE {
                            version: crate::text::string_from_chars(&rest),
                        },
                    )
                } else {
                    None
                }
            } else {
                None
            }
        }
    }
}

impl crate::kvp::FromKVPValue for Version {
    fn from_kvp_value(value: &str) -> Option<Self> {
        Version::parse(value)
    }
}

/// The version header section of a `train.dat`.
#[derive(Debug, Clone)]
pub struct VersionSection {
    pub version: Version,
}

/// Mathematical image of a [`VersionSection`].
pub ghost struct VersionSectionV {
    pub version: VersionV,
}

impl View for VersionSection {
    type V = VersionSectionV;

    open spec fn view(&self) -> VersionSectionV {
        VersionSectionV { version: self.version@ }
    }
}

impl Default for VersionSection {
    fn default() -> (r: Self)
        ensures
            r@.version == VersionV::BVE2,
    {
        VersionSection { version: Version::default() }
    }
}

/// Mathematical image of a warning.
pub ghost enum WarnV {
    UnknownSection { line: Option<u64>, name: Seq<char> },
    UnknownField { line: Option<u64>, name: Seq<char> },
    InvalidValue { line: Option<u64>, value: Seq<char> },
}

impl View for KVPGenericWarning {
    type V = WarnV;

    open spec fn view(&self) -> WarnV {
        match self.kind {
            KVPGenericWarningKind::UnknownSection { name } => WarnV::UnknownSection {
                line: self.span.line,
                name: name@,
            },
            KVPGenericWarningKind::UnknownField { name } => WarnV::UnknownField {
                line: self.span.line,
                name: name@,
            },
            KVPGenericWarningKind::TooManyFields { idx, max } => WarnV::InvalidValue {
                line: self.span.line,
                value: Seq::empty(),
            },
            KVPGenericWarningKind::InvalidValue { value } => WarnV::InvalidValue {
                line: self.span.line,
                value: value@,
            },
        }
    }
}

pub open spec fn warns_v(ws: Seq<KVPGenericWarning>) -> Seq<WarnV> {
    ws.map_values(|w: KVPGenericWarning| w@)
}

/// Folding one section's fields into a version, gathering warnings: a
/// bare value that reads as a version wins; a bare value that does not
/// is invalid; a key-value pair is an unknown field.
pub open spec fn version_fold(fields: Seq<crate::kvp::FieldV>, k: int, cur: VersionV) -> (
    VersionV,
    Seq<WarnV>,
)
    decreases fields.len() - k,
{
    if k < 0 || k >= fields.len() {
        (cur, Seq::empty())
    } else {
        match fields[k].data {
            ValueV::Value { value } => match version_of(value) {
                Some(v) => {
                    let (res, ws) = version_fold(fields, k + 1, v);
                    (res, ws)
                },
                None => {
                    let (res, ws) = version_fold(fields, k + 1, cur);
                    (res, seq![WarnV::InvalidValue { line: fields[k].line, value }] + ws)
                },
            },
            ValueV::KeyValuePair { key, value } => {
                let (res, ws) = version_fold(fields, k + 1, cur);
                (res, seq![WarnV::UnknownField { line: fields[k].line, name: key }] + ws)
            },
        }
    }
}

impl FromKVPSection for VersionSection {
    type Warnings = KVPGenericWarning;

    fn from_kvp_section(section: &KVPSection) -> (Self, Vec<KVPGenericWarning>) {
        VersionSection::build(section)
    }
}

impl VersionSection {
    /// Reads the version out of one section.
    pub fn build(section: &KVPSection) -> (r: (VersionSection, Vec<KVPGenericWarning>))
        ensures
            ({
                let (v, ws) = version_fold(section@.fields, 0, VersionV::BVE2);
                &&& r.0@.version == v
                &&& warns_v(r.1@) == ws
            }),
    {
        VersionSection::build_rec(section, 0, Version::default())
    }

    /// The tail of the fold from field `k` with `cur` standing.
    fn build_rec(section: &KVPSection, k: usize, cur: Version) -> (r: (
        VersionSection,
        Vec<KVPGenericWarning>,
    ))
        requires
            k <= section.fields@.len(),
        ensures
            ({
                let (v, ws) = version_fold(section@.fields, k as int, cur@);
                &&& r.0@.version == v
                &&& warns_v(r.1@) == ws
            }),
        decreases section.fields@.len() - k,
    {
        let ghost fieldsv = section@.fields;
        proof {
            assert(fieldsv.len() == section.fields@.len());
            if k < section.fields@.len() {
                assert(fieldsv[k as int] == section.fields@[k as int]@);
            }
        }
        if k == section.fields.len() {
            let r = (VersionSection { version: cur }, Vec::new());
            proof {
                assert(warns_v(r.1@) =~= Seq::<WarnV>::empty());
            }
            return r;
        }
        match &section.fields[k].data {
            ValueData::Value { value } => match Version::parse(value.as_str()) {
                Some(v) => VersionSection::build_rec(section, k + 1, v),
                None => {
                    let (res, rest) = VersionSection::build_rec(section, k + 1, cur);
                    let ghost restv = rest@;
                    let w = KVPGenericWarning {
                        span: section.fields[k].span,
                        kind: KVPGenericWarningKind::InvalidValue { value: value.clone() },
                    };
                    let ghost wv = w@;
                    let mut ws: Vec<KVPGenericWarning> = Vec::new();
                    ws.push(w);
                    let mut r2 = rest;
                    ws.append(&mut r2);
                    proof {
                        assert(ws@ =~= seq![ws@[0]] + restv);
                        assert(warns_v(ws@) =~= seq![wv] + warns_v(restv));
                    }
                    (res, ws)
                },
            },
            ValueData::KeyValuePair { key, value } => {
                let (res, rest) = VersionSection::build_rec(section, k + 1, cur);
                let ghost restv = rest@;
                let w = KVPGenericWarning {
                    span: section.fields[k].span,
                    kind: KVPGenericWarningKind::UnknownField { name: key.clone() },
                };
                let ghost wv = w@;
                let mut ws: Vec<KVPGenericWarning> = Vec::new();
                ws.push(w);
                let mut r2 = rest;
                ws.append(&mut r2);
                proof {
                    assert(ws@ =~= seq![ws@[0]] + restv);
                    assert(warns_v(ws@) =~= seq![wv] + warns_v(restv));
                }
                (res, ws)
            },
        }
    }
}

/// A parsed `train.dat`: the version header.
#[derive(Debug, Clone)]
pub struct ParsedTrainDat {
    pub version: VersionSection,
}

/// Mathematical image of a [`ParsedTrainDat`].
pub ghost struct ParsedTrainDatV {
    pub version: VersionSectionV,
}

impl View for ParsedTrainDat {
    type V = ParsedTrainDatV;

    open spec fn view(&self) -> ParsedTrainDatV {
        ParsedTrainDatV { version: self.version@ }
    }
}

/// Interpreting the parsed sections: the unnamed leading section feeds
/// the version header; every named section is reported unknown.
pub open spec fn train_dat_fold(sections: Seq<SectionV>, k: int, cur: VersionV) -> (
    VersionV,
    Seq<WarnV>,
)
    decreases sections.len() - k,
{
    if k < 0 || k >= sections.len() {
        (cur, Seq::empty())
    } else {
        match sections[k].name {
            None => {
                let (v, ws) = version_fold(sections[k].fields, 0, VersionV::BVE2);
                let (res, rest) = train_dat_fold(sections, k + 1, v);
                (res, ws + rest)
            },
            Some(name) => {
                let (res, rest) = train_dat_fold(sections, k + 1, cur);
                (
                    res,
                    seq![WarnV::UnknownSection { line: sections[k].line, name }] + rest,
                )
            },
        }
    }
}

impl FromKVPFile for ParsedTrainDat {
    type Warnings = KVPGenericWarning;

    fn from_kvp_file(k: &KVPFile) -> (Self, Vec<KVPGenericWarning>) {
        ParsedTrainDat::build(k)
    }
}

impl ParsedTrainDat {
    /// Interprets a parsed key-value-pair file as a `train.dat`.
    pub fn build(file: &KVPFile) -> (r: (ParsedTrainDat, Vec<KVPGenericWarning>))
        ensures
            ({
                let (v, ws) = train_dat_fold(file@.sections, 0, VersionV::BVE2);
                &&& r.0@.version.version == v
                &&& warns_v(r.1@) == ws
            }),
    {
        ParsedTrainDat::build_rec(file, 0, Version::default())
    }

    fn build_rec(file: &KVPFile, k: usize, cur: Version) -> (r: (
        ParsedTrainDat,
        Vec<KVPGenericWarning>,
    ))
        requires
            k <= file.sections@.len(),
        ensures
            ({
                let (v, ws) = train_dat_fold(file@.sections, k as int, cur@);
                &&& r.0@.version.version == v
                &&& warns_v(r.1@) == ws
            }),
        decreases file.sections@.len() - k,
    {
        let ghost sectionsv = file@.sections;
        proof {
            assert(sectionsv.len() == file.sections@.len());
            if k < file.sections@.len() {
                assert(sectionsv[k as int] == file.sections@[k as int]@);
            }
        }
        if k == file.sections.len() {
            let r = (
                ParsedTrainDat { version: VersionSection { version: cur } },
                Vec::new(),
            );
            proof {
                assert(warns_v(r.1@) =~= Seq::<WarnV>::empty());
            }
            return r;
        }
        match &file.sections[k].name {
            None => {
                let (vs, ws) = VersionSection::build(&file.sections[k]);
                let ghost wsv = ws@;
                let (res, rest) = ParsedTrainDat::build_rec(file, k + 1, vs.version);
                let ghost restv = rest@;
                let mut all = ws;
                let mut r2 = rest;
                all.append(&mut r2);
                proof {
                    assert(all@ =~= wsv + restv);
                    assert(warns_v(all@) =~= warns_v(wsv) + warns_v(restv));
                }
                (res, all)
            },
            Some(name) => {
                let (res, rest) = ParsedTrainDat::build_rec(file, k + 1, cur);
                let ghost restv = rest@;
                let w = KVPGenericWarning {
                    span: file.sections[k].span,
                    kind: KVPGenericWarningKind::UnknownSection { name: name.clone() },
                };
                let ghost wv = w@;
                let mut all: Vec<KVPGenericWarning> = Vec::new();
                all.push(w);
                let mut r2 = rest;
                all.append(&mut r2);
                proof {
                    assert(all@ =~= seq![all@[0]] + restv);
                    assert(warns_v(all@) =~= seq![wv] + warns_v(restv));
                }
                (res, all)
            },
        }
    }
}

/// Mathematical image of a parsed `train.dat` with its warnings.
pub ghost struct TrainDatV {
    pub version: VersionV,
    pub warnings: Seq<WarnV>,
}

/// What parsing a `train.dat` text yields: the text is lower-cased with
/// comments stripped, parsed as key-value pairs, and folded.
pub open spec fn train_dat_of(input: Seq<char>) -> TrainDatV {
    let cleaned = lower_of(strip_comments_of(input, ';', 0));
    let sections = crate::kvp::kvp_file_of(
        cleaned,
        KVPSymbols { section_open: '[', section_close: ']' },
    );
    let (v, ws) = train_dat_fold(sections, 0, VersionV::BVE2);
    TrainDatV { version: v, warnings: ws }
}

use crate::kvp::KVPSymbols;

/// Parses a `train.dat`: comments are stripped, the text is
/// lower-cased, the key-value-pair parser runs over it, and the version
/// header is read out; named sections and unreadable values are
/// reported as warnings.
pub fn parse_train_dat(input: &str) -> (r: (ParsedTrainDat, Vec<KVPGenericWarning>))
    ensures
        r.0@.version.version == train_dat_of(input@).version,
        warns_v(r.1@) == train_dat_of(input@).warnings,
{
    let stripped = strip_comments(input, ';');
    let lower = lowercase(stripped.as_str());
    let kvp_file = parse_kvp_file(lower.as_str(), dat_like());
    ParsedTrainDat::build(&kvp_file)
}

} // verus!
