//! Generic parser for the key-value-pair format the legacy config
//! files share. No frills: the input is taken line by line, a bracketed
//! line opens a new section, a line with an equals sign is a key-value
//! pair, and any other non-empty line is a bare value; whitespace is
//! trimmed off the edges of names, keys and values. Casing and comments
//! are dealt with ahead of time by the callers. The first section,
//! before any header, is the unnamed section.

use crate::route::inclusion::{trimmed, trimmed_range};
use crate::route::pat::{find_line_end, line_end};
use crate::span::Span;
use crate::text::chars_vec;
use vstd::prelude::*;

verus! {

/// The bracket characters a dialect uses for section headers.
#[derive(Debug, Clone, Copy, PartialEq, Eq, Structural)]
pub struct KVPSymbols {
    pub section_open: char,
    pub section_close: char,
}

/// The dialect of `train.dat`-like files.
pub fn dat_like() -> (r: KVPSymbols)
    ensures
        r == (KVPSymbols { section_open: '[', section_close: ']' }),
{
    KVPSymbols { section_open: '[', section_close: ']' }
}

/// The dialect of `extensions.cfg`- and animated-object-like files.
pub fn animated_like() -> (r: KVPSymbols)
    ensures
        r == (KVPSymbols { section_open: '[', section_close: ']' }),
{
    KVPSymbols { section_open: '[', section_close: ']' }
}

/// One parsed value: either a `key = value` pair or a bare value.
#[derive(Debug, Clone)]
pub enum ValueData {
    KeyValuePair { key: String, value: String },
    Value { value: String },
}

/// One parsed field with the line it came from.
#[derive(Debug, Clone)]
pub struct KVPField {
    pub span: Span,
    pub data: ValueData,
}

/// One section: its name (`None` for the unnamed leading section), the
/// line its header stands on, and its fields.
#[derive(Debug, Clone)]
pub struct KVPSection {
    pub name: Option<String>,
    pub span: Span,
    pub fields: Vec<KVPField>,
}

/// A whole parsed file.
#[derive(Debug, Clone)]
pub struct KVPFile {
    pub sections: Vec<KVPSection>,
}

impl Default for KVPSection {
    fn default() -> (r: Self)
        ensures
            r@ == (SectionV { name: None, line: Some(0), fields: Seq::empty() }),
    {
        let r = KVPSection { name: None, span: Span::from_line(0), fields: Vec::new() };
        proof {
            assert(r@.fields =~= Seq::<FieldV>::empty());
        }
        r
    }
}

impl Default for KVPFile {
    fn default() -> (r: Self)
        ensures
            r@.sections == Seq::<SectionV>::empty(),
    {
        let r = KVPFile { sections: Vec::new() };
        proof {
            assert(r@.sections =~= Seq::<SectionV>::empty());
        }
        r
    }
}

/// Mathematical image of a value.
pub ghost enum ValueV {
    KeyValuePair { key: Seq<char>, value: Seq<char> },
    Value { value: Seq<char> },
}

pub ghost struct FieldV {
    pub line: Option<u64>,
    pub data: ValueV,
}

pub ghost struct SectionV {
    pub name: Option<Seq<char>>,
    pub line: Option<u64>,
    pub fields: Seq<FieldV>,
}

pub ghost struct FileV {
    pub sections: Seq<SectionV>,
}

impl View for ValueData {
    type V = ValueV;

    open spec fn view(&self) -> ValueV {
        match self {
            ValueData::KeyValuePair { key, value } => ValueV::KeyValuePair {
                key: key@,
                value: value@,
            },
            ValueData::Value { value } => ValueV::Value { value: value@ },
        }
    }
}

impl View for KVPField {
    type V = FieldV;

    open spec fn view(&self) -> FieldV {
        FieldV { line: self.span.line, data: self.data@ }
    }
}

impl View for KVPSection {
    type V = SectionV;

    open spec fn view(&self) -> SectionV {
        SectionV {
            name: match self.name {
                Some(ref n) => Some(n@),
                None => None,
            },
            line: self.span.line,
            fields: self.fields@.map_values(|f: KVPField| f@),
        }
    }
}

impl View for KVPFile {
    type V = FileV;

    open spec fn view(&self) -> FileV {
        FileV { sections: self.sections@.map_values(|s: KVPSection| s@) }
    }
}

/// The lines of a text: pieces between line breaks; a trailing break
/// still opens one last (empty) line.
pub open spec fn split_lines(s: Seq<char>) -> Seq<Seq<char>>
    decreases s.len(),
    via split_lines_dec
{
    let e = line_end(s, 0);
    if e >= s.len() {
        seq![s]
    } else {
        seq![s.take(e)] + split_lines(s.skip(e + 1))
    }
}

#[via_fn]
proof fn split_lines_dec(s: Seq<char>) {
    crate::route::pat::lemma_line_end_bounds(s, 0);
}

/// First `=` in `t` at or after `i`.
pub open spec fn eq_pos(t: Seq<char>, i: int) -> Option<int>
    decreases t.len() - i,
{
    if i < 0 || i >= t.len() {
        None
    } else if t[i] == '=' {
        Some(i)
    } else {
        eq_pos(t, i + 1)
    }
}

/// What one trimmed, non-empty line denotes.
pub open spec fn line_item(t: Seq<char>) -> ValueV {
    match eq_pos(t, 0) {
        Some(p) => ValueV::KeyValuePair { key: trimmed(t.take(p)), value: trimmed(t.skip(p + 1)) },
        None => ValueV::Value { value: t },
    }
}

/// Whether a trimmed line is a section header.
pub open spec fn is_header(t: Seq<char>, sym: KVPSymbols) -> bool {
    t.len() >= 2 && t[0] == sym.section_open && t.last() == sym.section_close
}

/// The scan over the lines from `i`: blank lines vanish, a header
/// closes the current section and opens a new one named by its
/// bracketed interior, and any other line adds a field to the current
/// section.
pub open spec fn kvp_scan(
    lines: Seq<Seq<char>>,
    i: int,
    cur: SectionV,
    done: Seq<SectionV>,
    sym: KVPSymbols,
) -> Seq<SectionV>
    decreases lines.len() - i,
{
    if i < 0 || i >= lines.len() {
        done.push(cur)
    } else {
        let t = trimmed(lines[i]);
        if t.len() == 0 {
            kvp_scan(lines, i + 1, cur, done, sym)
        } else if is_header(t, sym) {
            let name = trimmed(t.subrange(1, t.len() - 1));
            kvp_scan(
                lines,
                i + 1,
                SectionV { name: Some(name), line: Some(i as u64), fields: Seq::empty() },
                done.push(cur),
                sym,
            )
        } else {
            kvp_scan(
                lines,
                i + 1,
                SectionV {
                    name: cur.name,
                    line: cur.line,
                    fields: cur.fields.push(
                        FieldV { line: Some(i as u64), data: line_item(t) },
                    ),
                },
                done,
                sym,
            )
        }
    }
}

/// What parsing a whole file yields.
pub open spec fn kvp_file_of(s: Seq<char>, sym: KVPSymbols) -> Seq<SectionV> {
    kvp_scan(
        split_lines(s),
        0,
        SectionV { name: None, line: Some(0), fields: Seq::empty() },
        Seq::empty(),
        sym,
    )
}

/// Splits a character vector into its lines.
fn split_lines_exec(s: &Vec<char>) -> (r: Vec<Vec<char>>)
    ensures
        r@.map_values(|l: Vec<char>| l@) == split_lines(s@),
        r@.len() >= 1,
    decreases s@.len(),
{
    let e = find_line_end(s, 0);
    if e >= s.len() {
        let mut r: Vec<Vec<char>> = Vec::new();
        r.push(crate::text::subvec(s, 0, s.len()));
        proof {
            assert(s@.subrange(0, s@.len() as int) =~= s@);
            assert(r@.map_values(|l: Vec<char>| l@) =~= split_lines(s@));
        }
        r
    } else {
        let head = crate::text::subvec(s, 0, e);
        let rest = crate::text::subvec(s, e + 1, s.len());
        let tail = split_lines_exec(&rest);
        let ghost tailv = tail@;
        let mut r: Vec<Vec<char>> = Vec::new();
        r.push(head);
        let mut t2 = tail;
        r.append(&mut t2);
        proof {
            assert(rest@ =~= s@.skip(e + 1));
            assert(s@.take(e as int) =~= s@.subrange(0, e as int));
            assert(r@ =~= seq![r@[0]] + tailv);
            assert(r@.map_values(|l: Vec<char>| l@) =~= split_lines(s@));
        }
        r
    }
}

/// First `=` in `t`.
fn find_eq(t: &Vec<char>) -> (r: Option<usize>)
    ensures
        match r {
            Some(p) => eq_pos(t@, 0) == Some(p as int) && p < t@.len(),
            None => eq_pos(t@, 0) is None,
        },
{
    let mut j: usize = 0;
    while j < t.len()
        invariant
            j <= t@.len(),
            eq_pos(t@, 0) == eq_pos(t@, j as int),
        decreases t@.len() - j,
    {
        if t[j] == '=' {
            return Some(j);
        }
        j = j + 1;
    }
    None
}

/// Parses one file of the key-value-pair format against a dialect's
/// symbols.
#[verifier::loop_isolation(false)]
#[verifier::rlimit(60)]
pub fn parse_kvp_file(input: &str, symbols: KVPSymbols) -> (r: KVPFile)
    ensures
        r@.sections == kvp_file_of(input@, symbols),
{
    let s = chars_vec(input);
    let lines = split_lines_exec(&s);
    let ghost lv = lines@.map_values(|l: Vec<char>| l@);
    proof {
        assert(lv.len() == lines@.len());
    }
    let mut cur = KVPSection::default();
    let mut done: Vec<KVPSection> = Vec::new();
    let mut i: usize = 0;
    proof {
        assert(done@.map_values(|x: KVPSection| x@) =~= Seq::<SectionV>::empty());
    }
    while i < lines.len()
        invariant
            i <= lines@.len(),
            kvp_scan(lv, i as int, cur@, done@.map_values(|x: KVPSection| x@), symbols)
                == kvp_scan(
                lv,
                0,
                SectionV { name: None, line: Some(0), fields: Seq::empty() },
                Seq::empty(),
                symbols,
            ),
        decreases lines@.len() - i,
    {
        let ghost curv = cur@;
        let ghost donev = done@.map_values(|x: KVPSection| x@);
        proof {
            assert(lv[i as int] == lines@[i as int]@);
        }
        let line = &lines[i];
        let t = trimmed_range(line, 0, line.len());
        proof {
            assert(line@.subrange(0, line@.len() as int) =~= line@);
        }
        if t.len() == 0 {
        } else if t.len() >= 2 && t[0] == symbols.section_open && t[t.len() - 1]
            == symbols.section_close {
            proof {
                assert(t@.last() == t@[t@.len() - 1]);
            }
            let inner = trimmed_range(&t, 1, t.len() - 1);
            proof {
                assert(t@.subrange(1, t@.len() - 1) =~= t@.subrange(1, t@.len() as int - 1));
            }
            let name = crate::text::string_from_chars(&inner);
            done.push(cur);
            cur = KVPSection {
                name: Some(name),
                span: Span::from_line(i as u64),
                fields: Vec::new(),
            };
            proof {
                assert(cur@.fields =~= Seq::<FieldV>::empty());
                assert(done@.map_values(|x: KVPSection| x@) =~= donev.push(curv));
            }
        } else {
            let data = match find_eq(&t) {
                Some(p) => {
                    let key = crate::text::string_from_chars(&trimmed_range(&t, 0, p));
                    let value = crate::text::string_from_chars(
                        &trimmed_range(&t, p + 1, t.len()),
                    );
                    proof {
                        assert(t@.subrange(0, p as int) =~= t@.take(p as int));
                        assert(t@.subrange(p as int + 1, t@.len() as int) =~= t@.skip(p + 1));
                    }
                    ValueData::KeyValuePair { key, value }
                },
                None => {
                    let value = crate::text::string_from_chars(&t);
                    ValueData::Value { value }
                },
            };
            let ghost fv = FieldV { line: Some(i as u64), data: line_item(t@) };
            cur.fields.push(KVPField { span: Span::from_line(i as u64), data });
            proof {
                assert(cur@.fields =~= curv.fields.push(fv));
                assert(cur@ == (SectionV {
                    name: curv.name,
                    line: curv.line,
                    fields: curv.fields.push(fv),
                }));
            }
        }
        i = i + 1;
    }
    done.push(cur);
    let ghost finalv = done@.map_values(|x: KVPSection| x@);
    let r = KVPFile { sections: done };
    proof {
        assert(r@.sections == finalv);
    }
    r
}

/// A diagnostic from interpreting a parsed file against a schema.
#[derive(Debug, Clone)]
pub struct KVPGenericWarning {
    pub span: Span,
    pub kind: KVPGenericWarningKind,
}

#[derive(Debug, Clone)]
pub enum KVPGenericWarningKind {
    UnknownSection { name: String },
    UnknownField { name: String },
    TooManyFields { idx: u64, max: u64 },
    InvalidValue { value: String },
}

/// Builds a typed file out of a parsed key-value-pair file.
pub trait FromKVPFile: Sized {
    type Warnings;

    fn from_kvp_file(k: &KVPFile) -> (Self, Vec<Self::Warnings>);
}

/// Builds a typed section out of one parsed section.
pub trait FromKVPSection: Sized {
    type Warnings;

    fn from_kvp_section(section: &KVPSection) -> (Self, Vec<Self::Warnings>);
}

/// Reads a typed value out of one raw value string.
pub trait FromKVPValue: Sized {
    fn from_kvp_value(value: &str) -> Option<Self>;
}

impl FromKVPValue for bool {
    fn from_kvp_value(value: &str) -> Option<Self> {
        match crate::numeric_bool::parse_loose_numeric_bool(value) {
            Some(b) => Some(b.0),
            None => None,
        }
    }
}

impl FromKVPValue for String {
    fn from_kvp_value(value: &str) -> Option<Self> {
        Some(String::from_str(value))
    }
}

} // verus!
