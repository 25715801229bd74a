//! A small parser for line-oriented configuration files.
//!
//! Each line of such a file names an option, an optional primary value
//! after an `=` sign, and an optional list of delimiter-separated
//! attributes after the primary value.

use vstd::prelude::*;

pub mod text;

use crate::text::find_first;
use crate::text::is_space;
use crate::text::is_space_char;
use crate::text::split_trimmed;
use crate::text::trim;
use crate::text::trim_str;
use crate::text::find_char;
use crate::text::split_and_trim;

verus! {

/// The mathematical content of a [`Value`]: the primary text and the
/// attribute texts as character sequences.
pub ghost struct ValueModel {
    pub primary: Seq<char>,
    pub attributes: Seq<Seq<char>>,
}

/// The mathematical content of an [`OptionProperties`] record.
pub ghost struct RecordModel {
    pub option: Seq<char>,
    pub value: ValueModel,
}

/// The value part of an option record: the primary value and the
/// delimiter-separated attributes that followed it on the line.
#[derive(Debug, PartialEq)]
pub struct Value {
    /// The trimmed text between the `=` sign and the first attribute
    /// delimiter, or the whole trimmed right-hand side when the line
    /// holds no delimiter.
    pub primary: String,
    /// The remaining delimiter-separated segments, each trimmed,
    /// in the order they stood on the line.
    pub attributes: Vec<String>,
}

/// One record of a configuration file: an option name and its value.
#[derive(Debug, PartialEq)]
pub struct OptionProperties {
    /// The trimmed text left of the `=` sign, or the whole trimmed line
    /// when no `=` is present.
    pub option: String,
    /// The value and attributes that followed the option name.
    pub value: Value,
}

impl View for Value {
    type V = ValueModel;

    open spec fn view(&self) -> ValueModel {
        ValueModel { primary: self.primary@, attributes: self.attributes.deep_view() }
    }
}

impl View for OptionProperties {
    type V = RecordModel;

    open spec fn view(&self) -> RecordModel {
        RecordModel { option: self.option@, value: self.value@ }
    }
}

impl OptionProperties {
    /// Assembles a record from its three parts.
    pub fn new(option: String, primary: String, attributes: Vec<String>) -> (r: Self)
        ensures
            r@.option == option@,
            r@.value.primary == primary@,
            r@.value.attributes == attributes.deep_view(),
    {
        Self { option, value: Value { primary, attributes } }
    }
}

/// Whether `s` holds a whitespace character anywhere.
pub open spec fn has_space(s: Seq<char>) -> bool {
    exists|k: int| 0 <= k < s.len() && is_space(s[k])
}

/// The option name substituted for a malformed one, so that a bad line
/// degrades into a discoverable record instead of aborting the file.
pub open spec fn invalid_marker() -> Seq<char> {
    "InvalidOption"@
}

/// The option name and the value text of a trimmed line: the two sides
/// of the first `=` sign, each trimmed; without an `=` the whole line is
/// the option name and the value text is empty.
pub open spec fn split_on_eq(t: Seq<char>) -> (Seq<char>, Seq<char>) {
    match find_first(t, '=') {
        Some(i) => (trim(t.subrange(0, i)), trim(t.subrange(i + 1, t.len() as int))),
        None => (t, Seq::<char>::empty()),
    }
}

/// The value part parsed out of the (already trimmed) value text `v`:
/// everything before the first delimiter is the primary value, and the
/// segments after it, each trimmed, are the attributes.
pub open spec fn value_model(v: Seq<char>, d: char) -> ValueModel {
    match find_first(v, d) {
        Some(i) => ValueModel {
            primary: trim(v.subrange(0, i)),
            attributes: split_trimmed(v.subrange(i + 1, v.len() as int), d),
        },
        None => ValueModel { primary: v, attributes: Seq::<Seq<char>>::empty() },
    }
}

/// An empty value: no primary text, no attributes.
pub open spec fn empty_value() -> ValueModel {
    ValueModel { primary: Seq::<char>::empty(), attributes: Seq::<Seq<char>>::empty() }
}

/// What parsing one raw line yields. A blank or comment line yields an
/// empty option name, the signal that no record is to be kept; an option
/// name holding whitespace yields the sentinel record with everything
/// else discarded; any other line is split into name, primary value and
/// attributes.
pub open spec fn line_model(l: Seq<char>, d: char) -> RecordModel {
    let t = trim(l);
    if t.len() == 0 || t.first() == '#' {
        RecordModel { option: Seq::<char>::empty(), value: empty_value() }
    } else {
        let ov = split_on_eq(t);
        if has_space(ov.0) {
            RecordModel { option: invalid_marker(), value: empty_value() }
        } else {
            RecordModel { option: ov.0, value: value_model(ov.1, d) }
        }
    }
}

/// Whether the string holds a whitespace character anywhere.
fn contains_space(s: &str) -> (r: bool)
    ensures
        r == has_space(s@),
{
    let n: usize = s.unicode_len();
    let mut i: usize = 0;
    while i < n
        invariant
            0 <= i <= n,
            n == s@.len(),
            forall|k: int| 0 <= k < i ==> !is_space(s@[k]),
        decreases n - i,
    {
        if is_space_char(s.get_char(i)) {
            return true;
        }
        i = i + 1;
    }
    false
}

/// Parses one line of a configuration file into its option name, its
/// primary value and its attribute list. The second parameter is the
/// character that separates the primary value from the attributes and
/// the attributes from one another.
pub fn parse_line(l: &str, attr_delimit_char: char) -> (r: (String, String, Vec<String>))
    ensures
        r.0@ == line_model(l@, attr_delimit_char).option,
        r.1@ == line_model(l@, attr_delimit_char).value.primary,
        r.2.deep_view() == line_model(l@, attr_delimit_char).value.attributes,
{
    let trimmed = trim_str(l);
    let tlen: usize = trimmed.as_str().unicode_len();
    if tlen == 0 || trimmed.as_str().get_char(0) == '#' {
        return (String::new(), String::new(), Vec::new());
    }
    let (option, value) = match find_char(trimmed.as_str(), '=') {
        Some(i) => (
            trim_str(trimmed.as_str().substring_char(0, i)),
            trim_str(trimmed.as_str().substring_char(i + 1, tlen)),
        ),
        None => (trimmed, String::new()),
    };
    if contains_space(option.as_str()) {
        return (String::from_str("InvalidOption"), String::new(), Vec::new());
    }
    let vlen: usize = value.as_str().unicode_len();
    match find_char(value.as_str(), attr_delimit_char) {
        Some(i) => {
            let primary = trim_str(value.as_str().substring_char(0, i));
            let attrs = split_and_trim(value.as_str().substring_char(i + 1, vlen), attr_delimit_char);
            (option, primary, attrs)
        },
        None => (option, value, Vec::new()),
    }
}

/// The sentinel option name never carries whitespace at either end.
proof fn lemma_marker_trimmed()
    ensures
        text::is_trimmed(invalid_marker()),
{
    reveal_strlit("InvalidOption");
}

/// Every part of a parsed line is trimmed: the option name, the primary
/// value and each attribute carry no whitespace at either end.
pub proof fn lemma_parts_are_trimmed(l: Seq<char>, d: char)
    ensures
        text::is_trimmed(line_model(l, d).option),
        text::is_trimmed(line_model(l, d).value.primary),
        forall|k: int|
            0 <= k < line_model(l, d).value.attributes.len() ==> text::is_trimmed(
                #[trigger] line_model(l, d).value.attributes[k],
            ),
{
    let t = trim(l);
    text::lemma_trim_is_trimmed(l);
    if t.len() == 0 || t.first() == '#' {
    } else {
        let ov = split_on_eq(t);
        match find_first(t, '=') {
            Some(i) => {
                text::lemma_trim_is_trimmed(t.subrange(0, i));
                text::lemma_trim_is_trimmed(t.subrange(i + 1, t.len() as int));
            },
            None => {
            },
        }
        if has_space(ov.0) {
            lemma_marker_trimmed();
        } else {
            let v = ov.1;
            match find_first(v, d) {
                Some(i) => {
                    text::lemma_trim_is_trimmed(v.subrange(0, i));
                    let tail = v.subrange(i + 1, v.len() as int);
                    assert forall|k: int|
                        0 <= k < split_trimmed(tail, d).len() implies text::is_trimmed(
                        split_trimmed(tail, d)[k],
                    ) by {
                        assert(split_trimmed(tail, d)[k] == trim(text::split_raw(tail, d)[k]));
                        text::lemma_trim_is_trimmed(text::split_raw(tail, d)[k]);
                    }
                },
                None => {
                },
            }
        }
    }
}

/// A line whose trimmed option name holds no whitespace and whose
/// trimmed text is neither empty nor a comment parses into exactly its
/// two sides: the option name left of the first `=`, and the value part
/// built from the text right of it.
pub proof fn lemma_valid_line_parsed(l: Seq<char>, d: char)
    requires
        trim(l).len() > 0,
        trim(l).first() != '#',
        !has_space(split_on_eq(trim(l)).0),
    ensures
        line_model(l, d).option == split_on_eq(trim(l)).0,
        line_model(l, d).value == value_model(split_on_eq(trim(l)).1, d),
{
}

/// A line that is blank after trimming, or whose first character is
/// `#`, yields no record: option name, primary value and attributes all
/// come back empty.
pub proof fn lemma_blank_or_comment_skipped(l: Seq<char>, d: char)
    requires
        trim(l).len() == 0 || trim(l).first() == '#',
    ensures
        line_model(l, d).option == Seq::<char>::empty(),
        line_model(l, d).value.primary == Seq::<char>::empty(),
        line_model(l, d).value.attributes == Seq::<Seq<char>>::empty(),
{
}

/// A line whose option name holds whitespace degrades into the sentinel
/// record: the option name is the invalid marker, and the value and
/// attributes are discarded, never partially parsed.
pub proof fn lemma_space_in_option_rejected(l: Seq<char>, d: char)
    requires
        trim(l).len() > 0,
        trim(l).first() != '#',
        has_space(split_on_eq(trim(l)).0),
    ensures
        line_model(l, d).option == invalid_marker(),
        line_model(l, d).value.primary == Seq::<char>::empty(),
        line_model(l, d).value.attributes == Seq::<Seq<char>>::empty(),
{
}

/// Value text without the attribute delimiter parses into itself as the
/// primary value, with no attributes.
pub proof fn lemma_no_delim_no_attributes(v: Seq<char>, d: char)
    requires
        !v.contains(d),
    ensures
        value_model(v, d).primary == v,
        value_model(v, d).attributes == Seq::<Seq<char>>::empty(),
{
    assert forall|k: int| 0 <= k < v.len() implies v[k] != d by {
        if v[k] == d {
            assert(v.contains(d));
        }
    }
    text::lemma_find_first_none(v, d);
}

/// Parsing is a function of the lines alone: two parses of the same
/// lines with the same delimiter yield the same records, in the same
/// order.
pub proof fn lemma_reparse_identical(
    r1: Seq<RecordModel>,
    r2: Seq<RecordModel>,
    lines: Seq<Seq<char>>,
    d: char,
)
    requires
        r1 == records_model(lines, d),
        r2 == records_model(lines, d),
    ensures
        r1 == r2,
{
}

/// What parsing a whole file yields: each line is parsed on its own, in
/// file order, and every line whose option name came back empty (a
/// blank or comment line, or a lone `=`) is skipped. Records are kept
/// one per contributing line; duplicate option names are never merged.
pub open spec fn records_model(lines: Seq<Seq<char>>, d: char) -> Seq<RecordModel> {
    lines.map_values(|l: Seq<char>| line_model(l, d)).filter(|m: RecordModel| m.option.len() != 0)
}

/// Filtering a sequence extended by one element keeps the old result
/// and appends the new element exactly when it passes the test.
proof fn lemma_filter_push<A>(s: Seq<A>, pred: spec_fn(A) -> bool, x: A)
    ensures
        s.push(x).filter(pred) == if pred(x) {
            s.filter(pred).push(x)
        } else {
            s.filter(pred)
        },
{
    reveal(Seq::filter);
    assert(s.push(x).drop_last() =~= s);
    assert(s.push(x).last() == x);
}

/// One more line never disturbs the records of the lines before it: its
/// own record, if the line produces one, is appended after them, and an
/// option name that repeats an earlier one still gets its own record.
pub proof fn lemma_each_line_appends(lines: Seq<Seq<char>>, l: Seq<char>, d: char)
    ensures
        records_model(lines.push(l), d) == if line_model(l, d).option.len() == 0 {
            records_model(lines, d)
        } else {
            records_model(lines, d).push(line_model(l, d))
        },
{
    let f = |l0: Seq<char>| line_model(l0, d);
    let pred = |m: RecordModel| m.option.len() != 0;
    assert(lines.push(l).map_values(f) =~= lines.map_values(f).push(f(l)));
    lemma_filter_push(lines.map_values(f), pred, f(l));
}

/// Parses a sequence of configuration lines, in order, into the records
/// they produce. Lines whose option name comes back empty produce no
/// record; every other line produces exactly one.
pub fn parse_lines(lines: &Vec<String>, attr_delimit_char: char) -> (r: Vec<OptionProperties>)
    ensures
        r@.map_values(|p: OptionProperties| p@) == records_model(
            lines.deep_view(),
            attr_delimit_char,
        ),
{
    let mut out: Vec<OptionProperties> = Vec::new();
    let mut idx: usize = 0;
    while idx < lines.len()
        invariant
            0 <= idx <= lines@.len(),
            out@.map_values(|p: OptionProperties| p@) =~= records_model(
                lines.deep_view().take(idx as int),
                attr_delimit_char,
            ),
        decreases lines@.len() - idx,
    {
        let ghost prev = lines.deep_view().take(idx as int);
        let ghost prev_out = out@.map_values(|p: OptionProperties| p@);
        let (option, primary, attrs) = parse_line(lines[idx].as_str(), attr_delimit_char);
        let ghost m = line_model(lines.deep_view()[idx as int], attr_delimit_char);
        if option.as_str().unicode_len() != 0 {
            let rec = OptionProperties::new(option, primary, attrs);
            proof {
                assert(rec@ == m);
            }
            out.push(rec);
            proof {
                assert(out@.map_values(|p: OptionProperties| p@) =~= prev_out.push(m));
            }
        }
        proof {
            lemma_each_line_appends(prev, lines.deep_view()[idx as int], attr_delimit_char);
            assert(prev.push(lines.deep_view()[idx as int]) =~= lines.deep_view().take(
                idx as int + 1,
            ));
        }
        idx = idx + 1;
    }
    proof {
        assert(lines.deep_view().take(lines@.len() as int) =~= lines.deep_view());
    }
    out
}

/// Returns the library version.
pub fn get_ver() -> (r: String)
    ensures
        r@ == "0.2.0"@,
{
    String::from_str("0.2.0")
}

} // verus!
