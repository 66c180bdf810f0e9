//! Environment values and the named formatting filters applied to them
//! during rendering: the seven case conversions, and the textual form that
//! plain substitution uses.

use vstd::prelude::*;

use convert_case::Case;
use convert_case::Casing;

use crate::errors::RenderError;

verus! {

/// A value bound in the rendering environment.
pub enum EnvValue {
    /// A string value; the only kind the formatting filters accept.
    Text(String),
    /// An integer value.
    Integer(i64),
    /// A boolean value.
    Boolean(bool),
    /// A non-integer numeric value, carried as its decimal text.
    Number(String),
    /// An ordered list of strings.
    Listing(Vec<String>),
}

/// The named formatting filters: case conversions over string values.
#[derive(Clone, Copy, Debug, PartialEq, Eq, Structural)]
pub enum FilterKind {
    Lower,
    Upper,
    Snake,
    Kebab,
    Pascal,
    Camel,
    Title,
}

pub uninterp spec fn lower_of(s: Seq<char>) -> Seq<char>;

pub uninterp spec fn upper_of(s: Seq<char>) -> Seq<char>;

pub uninterp spec fn snake_of(s: Seq<char>) -> Seq<char>;

pub uninterp spec fn kebab_of(s: Seq<char>) -> Seq<char>;

pub uninterp spec fn pascal_of(s: Seq<char>) -> Seq<char>;

pub uninterp spec fn camel_of(s: Seq<char>) -> Seq<char>;

pub uninterp spec fn title_of(s: Seq<char>) -> Seq<char>;

/// Relies on convert_case's `Casing::to_case` with `Case::Lower`: the
/// word-split, lower-cased form; a function of the characters alone.
#[verifier::external_body]
fn case_lower(s: &str) -> (r: String)
    ensures
        r@ == lower_of(s@),
{
    s.to_case(Case::Lower)
}

/// Relies on convert_case's `Casing::to_case` with `Case::Upper`: the
/// word-split, upper-cased form; a function of the characters alone.
#[verifier::external_body]
fn case_upper(s: &str) -> (r: String)
    ensures
        r@ == upper_of(s@),
{
    s.to_case(Case::Upper)
}

/// Relies on convert_case's `Casing::to_case` with `Case::Snake`: the
/// snake_case form; a function of the characters alone.
#[verifier::external_body]
fn case_snake(s: &str) -> (r: String)
    ensures
        r@ == snake_of(s@),
{
    s.to_case(Case::Snake)
}

/// Relies on convert_case's `Casing::to_case` with `Case::Kebab`: the
/// kebab-case form; a function of the characters alone.
#[verifier::external_body]
fn case_kebab(s: &str) -> (r: String)
    ensures
        r@ == kebab_of(s@),
{
    s.to_case(Case::Kebab)
}

/// Relies on convert_case's `Casing::to_case` with `Case::Pascal`: the
/// PascalCase form; a function of the characters alone.
#[verifier::external_body]
fn case_pascal(s: &str) -> (r: String)
    ensures
        r@ == pascal_of(s@),
{
    s.to_case(Case::Pascal)
}

/// Relies on convert_case's `Casing::to_case` with `Case::Camel`: the
/// camelCase form; a function of the characters alone.
#[verifier::external_body]
fn case_camel(s: &str) -> (r: String)
    ensures
        r@ == camel_of(s@),
{
    s.to_case(Case::Camel)
}

/// Relies on convert_case's `Casing::to_case` with `Case::Title`: the
/// Title Case form; a function of the characters alone.
#[verifier::external_body]
fn case_title(s: &str) -> (r: String)
    ensures
        r@ == title_of(s@),
{
    s.to_case(Case::Title)
}

/// The transform a filter denotes, over character sequences.
pub open spec fn case_spec(f: FilterKind, s: Seq<char>) -> Seq<char> {
    match f {
        FilterKind::Lower => lower_of(s),
        FilterKind::Upper => upper_of(s),
        FilterKind::Snake => snake_of(s),
        FilterKind::Kebab => kebab_of(s),
        FilterKind::Pascal => pascal_of(s),
        FilterKind::Camel => camel_of(s),
        FilterKind::Title => title_of(s),
    }
}

/// What applying filter `f` to `v` yields: the transformed text for a
/// string value, and a formatting error for every other kind of value.
pub open spec fn apply_filter_spec(f: FilterKind, v: EnvValue) -> Result<Seq<char>, RenderError> {
    match v {
        EnvValue::Text(s) => Ok(case_spec(f, s@)),
        _ => Err(RenderError::FormatError),
    }
}

/// Applies filter `f` to `v`, as `apply_filter_spec` describes it.
pub fn apply_filter(f: FilterKind, v: &EnvValue) -> (r: Result<String, RenderError>)
    ensures
        match apply_filter_spec(f, *v) {
            Ok(t) => r matches Ok(s) && s@ == t,
            Err(e) => r matches Err(a) && a == e,
        },
{
    match v {
        EnvValue::Text(s) => Ok(
            match f {
                FilterKind::Lower => case_lower(s.as_str()),
                FilterKind::Upper => case_upper(s.as_str()),
                FilterKind::Snake => case_snake(s.as_str()),
                FilterKind::Kebab => case_kebab(s.as_str()),
                FilterKind::Pascal => case_pascal(s.as_str()),
                FilterKind::Camel => case_camel(s.as_str()),
                FilterKind::Title => case_title(s.as_str()),
            },
        ),
        _ => Err(RenderError::FormatError),
    }
}

/// The digit character for `n`.
pub open spec fn digit(n: int) -> char {
    ((48 + n) as u8) as char
}

/// Decimal digits of a natural number, most significant first.
pub open spec fn dec_of_nat(n: nat) -> Seq<char>
    decreases n,
{
    if n < 10 {
        seq![digit(n as int)]
    } else {
        dec_of_nat(n / 10).push(digit((n % 10) as int))
    }
}

/// Decimal text of an integer: a minus sign and the digits of the
/// magnitude for negative values, the digits alone otherwise.
pub open spec fn int_text(i: int) -> Seq<char> {
    if i < 0 {
        seq!['-'] + dec_of_nat((-i) as nat)
    } else {
        dec_of_nat(i as nat)
    }
}

/// The digit character for `n`, executable form.
fn digit_char(n: u64) -> (c: char)
    requires
        n < 10,
    ensures
        c == digit(n as int),
{
    (48u8 + n as u8) as char
}

/// Appends the decimal digits of `n` to `out`.
fn push_dec(out: &mut Vec<char>, n: u64)
    ensures
        final(out)@ == old(out)@ + dec_of_nat(n as nat),
    decreases n,
{
    if n < 10 {
        out.push(digit_char(n));
        proof {
            assert(out@ =~= old(out)@ + dec_of_nat(n as nat));
        }
    } else {
        push_dec(out, n / 10);
        out.push(digit_char(n % 10));
        proof {
            assert(out@ =~= old(out)@ + dec_of_nat(n as nat));
        }
    }
}

/// The decimal text of `i` as characters.
pub fn format_integer(i: i64) -> (r: Vec<char>)
    ensures
        r@ == int_text(i as int),
{
    let mut out: Vec<char> = Vec::new();
    if i < 0 {
        out.push('-');
        let mag: u64 = (-(i as i128)) as u64;
        proof {
            assert(mag == -(i as int));
        }
        push_dec(&mut out, mag);
        proof {
            assert(out@ =~= int_text(i as int));
        }
    } else {
        push_dec(&mut out, i as u64);
    }
    out
}

/// List values joined for plain substitution: the items in order,
/// separated by a comma and a space.
pub open spec fn joined(l: Seq<String>) -> Seq<char>
    decreases l.len(),
{
    if l.len() == 0 {
        Seq::empty()
    } else if l.len() == 1 {
        l[0]@
    } else {
        l[0]@ + ", "@ + joined(l.skip(1))
    }
}

/// Joins `l` with `", "`, as `joined` describes it.
pub fn join_listing(l: &Vec<String>) -> (r: Vec<char>)
    ensures
        r@ == joined(l@),
{
    let mut out: Vec<char> = Vec::new();
    let n = l.len();
    let mut i: usize = 0;
    proof {
        assert(l@.skip(0) =~= l@);
        assert(out@ + joined(l@) =~= joined(l@));
    }
    while i < n
        invariant
            n == l@.len(),
            i <= n,
            out@ + joined(l@.skip(i as int)) == joined(l@),
        decreases n - i,
    {
        let item = crate::text::to_chars(l[i].as_str());
        let ghost before = out@;
        crate::text::append_range(&mut out, &item, 0, item.len());
        proof {
            assert(item@.subrange(0, item@.len() as int) =~= item@);
        }
        if i + 1 < n {
            out.push(',');
            out.push(' ');
            proof {
                reveal_strlit(", ");
                assert(out@ =~= before + l@[i as int]@ + ", "@);
                assert(l@.skip(i as int)[0] == l@[i as int]);
                assert(l@.skip(i as int).skip(1) =~= l@.skip(i + 1));
                assert(joined(l@.skip(i as int)) == l@[i as int]@ + ", "@ + joined(
                    l@.skip(i + 1),
                ));
                assert(out@ + joined(l@.skip(i + 1)) =~= before + joined(l@.skip(i as int)));
            }
        } else {
            proof {
                assert(l@.skip(i as int).len() == 1);
                assert(l@.skip(i as int)[0] == l@[i as int]);
                assert(joined(l@.skip(i as int)) == l@[i as int]@);
                assert(l@.skip(i + 1).len() == 0);
                assert(out@ + joined(l@.skip(i + 1)) =~= before + joined(l@.skip(i as int)));
            }
        }
        i = i + 1;
    }
    proof {
        assert(l@.skip(n as int).len() == 0);
        assert(out@ =~= out@ + joined(l@.skip(n as int)));
    }
    out
}

/// The textual form a value takes under plain (filterless) substitution.
pub open spec fn textual(v: EnvValue) -> Seq<char> {
    match v {
        EnvValue::Text(s) => s@,
        EnvValue::Integer(i) => int_text(i as int),
        EnvValue::Boolean(b) => if b {
            "true"@
        } else {
            "false"@
        },
        EnvValue::Number(s) => s@,
        EnvValue::Listing(l) => joined(l@),
    }
}

/// The textual form of `v`, as `textual` describes it.
pub fn textual_chars(v: &EnvValue) -> (r: Vec<char>)
    ensures
        r@ == textual(*v),
{
    match v {
        EnvValue::Text(s) => crate::text::to_chars(s.as_str()),
        EnvValue::Integer(i) => format_integer(*i),
        EnvValue::Boolean(b) => {
            if *b {
                crate::text::to_chars("true")
            } else {
                crate::text::to_chars("false")
            }
        },
        EnvValue::Number(s) => crate::text::to_chars(s.as_str()),
        EnvValue::Listing(l) => join_listing(l),
    }
}

/// Formats a value through the lowercase filter; defined only for string
/// values.
pub fn lower(value: &EnvValue) -> (r: Result<String, RenderError>)
    ensures
        match apply_filter_spec(FilterKind::Lower, *value) {
            Ok(t) => r matches Ok(s) && s@ == t,
            Err(e) => r matches Err(a) && a == e,
        },
{
    apply_filter(FilterKind::Lower, value)
}

/// Formats a value through the uppercase filter; defined only for string
/// values.
pub fn upper(value: &EnvValue) -> (r: Result<String, RenderError>)
    ensures
        match apply_filter_spec(FilterKind::Upper, *value) {
            Ok(t) => r matches Ok(s) && s@ == t,
            Err(e) => r matches Err(a) && a == e,
        },
{
    apply_filter(FilterKind::Upper, value)
}

/// Formats a value through the snake_case filter; defined only for string
/// values.
pub fn snake(value: &EnvValue) -> (r: Result<String, RenderError>)
    ensures
        match apply_filter_spec(FilterKind::Snake, *value) {
            Ok(t) => r matches Ok(s) && s@ == t,
            Err(e) => r matches Err(a) && a == e,
        },
{
    apply_filter(FilterKind::Snake, value)
}

/// Formats a value through the kebab-case filter; defined only for string
/// values.
pub fn kebab(value: &EnvValue) -> (r: Result<String, RenderError>)
    ensures
        match apply_filter_spec(FilterKind::Kebab, *value) {
            Ok(t) => r matches Ok(s) && s@ == t,
            Err(e) => r matches Err(a) && a == e,
        },
{
    apply_filter(FilterKind::Kebab, value)
}

/// Formats a value through the PascalCase filter; defined only for string
/// values.
pub fn pascal(value: &EnvValue) -> (r: Result<String, RenderError>)
    ensures
        match apply_filter_spec(FilterKind::Pascal, *value) {
            Ok(t) => r matches Ok(s) && s@ == t,
            Err(e) => r matches Err(a) && a == e,
        },
{
    apply_filter(FilterKind::Pascal, value)
}

/// Formats a value through the camelCase filter; defined only for string
/// values.
pub fn camel(value: &EnvValue) -> (r: Result<String, RenderError>)
    ensures
        match apply_filter_spec(FilterKind::Camel, *value) {
            Ok(t) => r matches Ok(s) && s@ == t,
            Err(e) => r matches Err(a) && a == e,
        },
{
    apply_filter(FilterKind::Camel, value)
}

/// Formats a value through the Title Case filter; defined only for string
/// values.
pub fn title(value: &EnvValue) -> (r: Result<String, RenderError>)
    ensures
        match apply_filter_spec(FilterKind::Title, *value) {
            Ok(t) => r matches Ok(s) && s@ == t,
            Err(e) => r matches Err(a) && a == e,
        },
{
    apply_filter(FilterKind::Title, value)
}

} // verus!
