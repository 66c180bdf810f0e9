//! The template engine: renders text against a value environment,
//! substituting `{{ path }}` placeholders and applying an optional
//! `{{ path | filter }}` formatting filter, left to right.

use vstd::prelude::*;

use crate::errors::RenderError;
use crate::format::apply_filter;
use crate::format::apply_filter_spec;
use crate::format::textual;
use crate::format::textual_chars;
use crate::format::EnvValue;
use crate::format::FilterKind;
use crate::text::append_range;
use crate::text::chars_eq_str;
use crate::text::chars_to_string;
use crate::text::find_first;
use crate::text::lemma_find_first;
use crate::text::lemma_find_first_unique;
use crate::text::match_at;
use crate::text::scan_first;
use crate::text::tail_from;
use crate::text::to_chars;

verus! {

/// The opening placeholder marker.
pub open spec fn open_marker() -> Seq<char> {
    seq!['{', '{']
}

/// The closing placeholder marker.
pub open spec fn close_marker() -> Seq<char> {
    seq!['}', '}']
}

/// `s` without leading spaces.
pub open spec fn drop_leading(s: Seq<char>) -> Seq<char>
    decreases s.len(),
{
    if s.len() > 0 && s[0] == ' ' {
        drop_leading(s.skip(1))
    } else {
        s
    }
}

/// `s` without trailing spaces.
pub open spec fn drop_trailing(s: Seq<char>) -> Seq<char>
    decreases s.len(),
{
    if s.len() > 0 && s[s.len() - 1] == ' ' {
        drop_trailing(s.take(s.len() - 1))
    } else {
        s
    }
}

/// `s` without leading and trailing spaces.
pub open spec fn trimmed(s: Seq<char>) -> Seq<char> {
    drop_leading(drop_trailing(s))
}

proof fn lemma_drop_leading(s: Seq<char>, j: int)
    requires
        0 <= j <= s.len(),
        forall|k: int| 0 <= k < j ==> s[k] == ' ',
        j == s.len() || s[j] != ' ',
    ensures
        drop_leading(s) == s.skip(j),
    decreases j,
{
    if j == 0 {
        assert(s.skip(0) =~= s);
    } else {
        assert(s[0] == ' ');
        lemma_drop_leading(s.skip(1), j - 1);
        assert(s.skip(1).skip(j - 1) =~= s.skip(j));
    }
}

proof fn lemma_drop_trailing(s: Seq<char>, j: int)
    requires
        0 <= j <= s.len(),
        forall|k: int| j <= k < s.len() ==> s[k] == ' ',
        j == 0 || s[j - 1] != ' ',
    ensures
        drop_trailing(s) == s.take(j),
    decreases s.len(),
{
    if j == s.len() {
        assert(s.take(j) =~= s);
    } else {
        assert(s[s.len() - 1] == ' ');
        lemma_drop_trailing(s.take(s.len() - 1), j);
        assert(s.take(s.len() - 1).take(j) =~= s.take(j));
    }
}

/// `s` without leading and trailing spaces, as `trimmed` describes it.
pub fn trim_chars(s: &Vec<char>) -> (r: Vec<char>)
    ensures
        r@ == trimmed(s@),
{
    let mut end: usize = s.len();
    while end > 0 && s[end - 1] == ' '
        invariant
            end <= s@.len(),
            forall|k: int| end <= k < s@.len() ==> s@[k] == ' ',
        decreases end,
    {
        end = end - 1;
    }
    proof {
        lemma_drop_trailing(s@, end as int);
    }
    let mut start: usize = 0;
    while start < end && s[start] == ' '
        invariant
            start <= end <= s@.len(),
            forall|k: int| 0 <= k < start ==> s@[k] == ' ',
        decreases end - start,
    {
        start = start + 1;
    }
    proof {
        let t = s@.take(end as int);
        lemma_drop_leading(t, start as int);
        assert(t.skip(start as int) =~= s@.subrange(start as int, end as int));
    }
    let mut r: Vec<char> = Vec::new();
    append_range(&mut r, s, start, end);
    r
}

/// The filter a name denotes, if any.
pub open spec fn filter_name(n: Seq<char>) -> Option<FilterKind> {
    if n == "lower"@ {
        Some(FilterKind::Lower)
    } else if n == "upper"@ {
        Some(FilterKind::Upper)
    } else if n == "snake"@ {
        Some(FilterKind::Snake)
    } else if n == "kebab"@ {
        Some(FilterKind::Kebab)
    } else if n == "pascal"@ {
        Some(FilterKind::Pascal)
    } else if n == "camel"@ {
        Some(FilterKind::Camel)
    } else if n == "title"@ {
        Some(FilterKind::Title)
    } else {
        None
    }
}

/// The filter `n` names, as `filter_name` describes it.
pub fn parse_filter(n: &Vec<char>) -> (r: Option<FilterKind>)
    ensures
        r == filter_name(n@),
{
    if chars_eq_str(n, "lower") {
        Some(FilterKind::Lower)
    } else if chars_eq_str(n, "upper") {
        Some(FilterKind::Upper)
    } else if chars_eq_str(n, "snake") {
        Some(FilterKind::Snake)
    } else if chars_eq_str(n, "kebab") {
        Some(FilterKind::Kebab)
    } else if chars_eq_str(n, "pascal") {
        Some(FilterKind::Pascal)
    } else if chars_eq_str(n, "camel") {
        Some(FilterKind::Camel)
    } else if chars_eq_str(n, "title") {
        Some(FilterKind::Title)
    } else {
        None
    }
}

/// The rendering environment: named values, looked up by the full dotted
/// path written in a placeholder. Names are unique.
pub struct ValueEnv {
    /// Bindings of placeholder paths to values.
    pub entries: Vec<(String, EnvValue)>,
}

impl ValueEnv {
    /// Names are unique keys of the environment.
    pub open spec fn wf(self) -> bool {
        forall|i: int, j: int|
            0 <= i < j < self.entries@.len() ==> self.entries@[i].0@ != self.entries@[j].0@
    }

    /// The environment binds name `k`.
    pub open spec fn has(self, k: Seq<char>) -> bool {
        exists|i: int| 0 <= i < self.entries@.len() && self.entries@[i].0@ == k
    }

    /// Index of the binding for `k` (meaningful when `has`).
    pub open spec fn index_of(self, k: Seq<char>) -> int {
        choose|i: int| 0 <= i < self.entries@.len() && self.entries@[i].0@ == k
    }

    /// The value bound to `k` (meaningful when `has`).
    pub open spec fn value_of(self, k: Seq<char>) -> EnvValue {
        self.entries@[self.index_of(k)].1
    }

    /// An empty environment.
    pub fn new() -> (r: ValueEnv)
        ensures
            r.wf(),
            forall|k: Seq<char>| !r.has(k),
    {
        ValueEnv { entries: Vec::new() }
    }

    /// Index of the binding for `key`, if the environment has one.
    fn lookup(&self, key: &Vec<char>) -> (r: Option<usize>)
        requires
            self.wf(),
        ensures
            match r {
                Some(i) => self.has(key@) && i == self.index_of(key@) && self.entries@[
                    i as int
                ].0@ == key@,
                None => !self.has(key@),
            },
    {
        let mut i: usize = 0;
        let n = self.entries.len();
        while i < n
            invariant
                self.wf(),
                n == self.entries@.len(),
                i <= n,
                forall|k: int| 0 <= k < i ==> self.entries@[k].0@ != key@,
            decreases n - i,
        {
            if chars_eq_str(key, self.entries[i].0.as_str()) {
                proof {
                    let w = self.index_of(key@);
                    if w != i {
                        assert(self.entries@[w].0@ == self.entries@[i as int].0@);
                    }
                }
                return Some(i);
            }
            i = i + 1;
        }
        None
    }

    /// Binds `key` to `value`, overwriting an existing binding for the same
    /// key and keeping every other binding unchanged.
    pub fn bind(&mut self, key: String, value: EnvValue)
        requires
            old(self).wf(),
        ensures
            final(self).wf(),
            final(self).has(key@),
            final(self).value_of(key@) == value,
            forall|k: Seq<char>| k != key@ ==> (final(self).has(k) == old(self).has(k)),
            forall|k: Seq<char>|
                k != key@ && old(self).has(k) ==> final(self).value_of(k) == old(self).value_of(k),
    {
        let ghost before = self.entries@;
        let key_chars = to_chars(key.as_str());
        match self.lookup(&key_chars) {
            Some(i) => {
                self.entries.set(i, (key, value));
                proof {
                    let after = self.entries@;
                    assert(forall|k: int|
                        0 <= k < after.len() ==> after[k].0@ == before[k].0@);
                    lemma_env_lookup(after, key_chars@, i as int);
                    assert forall|k: Seq<char>| k != key_chars@ implies (env_has(after, k)
                        == env_has(before, k)) by {
                        if env_has(after, k) {
                            let w = env_index(after, k);
                            assert(before[w].0@ == k);
                        }
                        if env_has(before, k) {
                            let w = env_index(before, k);
                            assert(after[w].0@ == k);
                        }
                    }
                    assert forall|k: Seq<char>| k != key_chars@ && env_has(before, k) implies
                        env_value(after, k) == env_value(before, k) by {
                        let w = env_index(before, k);
                        assert(0 <= w < before.len() && before[w].0@ == k);
                        lemma_env_lookup(after, k, w);
                        lemma_env_lookup(before, k, w);
                        assert(w != i);
                    }
                }
            },
            None => {
                self.entries.push((key, value));
                proof {
                    let after = self.entries@;
                    assert(forall|k: int| 0 <= k < before.len() ==> after[k] == before[k]);
                    assert(forall|k: int|
                        0 <= k < before.len() ==> before[k].0@ != key_chars@);
                    lemma_env_lookup(after, key_chars@, before.len() as int);
                    assert forall|k: Seq<char>| k != key_chars@ implies (env_has(after, k)
                        == env_has(before, k)) by {
                        if env_has(after, k) {
                            let w = env_index(after, k);
                            assert(w < before.len());
                            assert(before[w].0@ == k);
                        }
                        if env_has(before, k) {
                            let w = env_index(before, k);
                            assert(after[w].0@ == k);
                        }
                    }
                    assert forall|k: Seq<char>| k != key_chars@ && env_has(before, k) implies
                        env_value(after, k) == env_value(before, k) by {
                        let w = env_index(before, k);
                        assert(0 <= w < before.len() && before[w].0@ == k);
                        lemma_env_lookup(after, k, w);
                        lemma_env_lookup(before, k, w);
                    }
                }
            },
        }
    }
}

/// The entries bind name `k` (free-function form of `ValueEnv::has`).
pub open spec fn env_has(s: Seq<(String, EnvValue)>, k: Seq<char>) -> bool {
    exists|i: int| 0 <= i < s.len() && s[i].0@ == k
}

/// Index of the binding for `k` among `s`.
pub open spec fn env_index(s: Seq<(String, EnvValue)>, k: Seq<char>) -> int {
    choose|i: int| 0 <= i < s.len() && s[i].0@ == k
}

/// The value bound to `k` among `s`.
pub open spec fn env_value(s: Seq<(String, EnvValue)>, k: Seq<char>) -> EnvValue {
    s[env_index(s, k)].1
}

/// With unique keys, an index whose entry carries key `k` is the lookup
/// index.
proof fn lemma_env_lookup(s: Seq<(String, EnvValue)>, k: Seq<char>, i: int)
    requires
        forall|x: int, y: int| 0 <= x < y < s.len() ==> s[x].0@ != s[y].0@,
        0 <= i < s.len(),
        s[i].0@ == k,
    ensures
        env_has(s, k),
        env_index(s, k) == i,
        env_value(s, k) == s[i].1,
{
    assert(env_has(s, k));
    let w = env_index(s, k);
    assert(0 <= w < s.len() && s[w].0@ == k);
    if w < i {
        assert(s[w].0@ != s[i].0@);
    }
    if i < w {
        assert(s[i].0@ != s[w].0@);
    }
}

/// What one placeholder body (the text between the markers) evaluates to:
/// without a filter, the textual form of the named value, or a missing-value
/// error; with a filter, the filtered form of the named string value, where
/// a non-string or absent value is a formatting error and an unknown filter
/// name is its own error.
pub open spec fn eval_placeholder_spec(inner: Seq<char>, env: ValueEnv) -> Result<
    Seq<char>,
    RenderError,
> {
    match find_first(inner, seq!['|']) {
        None => {
            let key = trimmed(inner);
            if env.has(key) {
                Ok(textual(env.value_of(key)))
            } else {
                Err(RenderError::MissingValue)
            }
        },
        Some(i) => {
            let key = trimmed(inner.take(i));
            let fname = trimmed(inner.skip(i + 1));
            match filter_name(fname) {
                None => Err(RenderError::UnknownFilter),
                Some(f) => {
                    if env.has(key) {
                        apply_filter_spec(f, env.value_of(key))
                    } else {
                        Err(RenderError::FormatError)
                    }
                },
            }
        },
    }
}

/// Evaluates one placeholder body, as `eval_placeholder_spec` describes it.
fn eval_placeholder(inner: &Vec<char>, env: &ValueEnv) -> (r: Result<Vec<char>, RenderError>)
    requires
        env.wf(),
    ensures
        match eval_placeholder_spec(inner@, *env) {
            Ok(t) => r matches Ok(v) && v@ == t,
            Err(e) => r matches Err(a) && a == e,
        },
{
    let mut pipe: Vec<char> = Vec::new();
    pipe.push('|');
    proof {
        assert(pipe@ =~= seq!['|']);
    }
    match scan_first(inner, &pipe) {
        None => {
            let key = trim_chars(inner);
            match env.lookup(&key) {
                Some(i) => Ok(textual_chars(&env.entries[i].1)),
                None => Err(RenderError::MissingValue),
            }
        },
        Some(i) => {
            let n = inner.len();
            proof {
                lemma_find_first(inner@, pipe@);
                assert(match_at(inner@, pipe@, i as int));
                assert(i + 1 <= n);
            }
            let mut left: Vec<char> = Vec::new();
            append_range(&mut left, inner, 0, i);
            proof {
                assert(left@ =~= inner@.take(i as int));
            }
            let right = tail_from(inner, i + 1);
            let key = trim_chars(&left);
            let fname = trim_chars(&right);
            match parse_filter(&fname) {
                None => Err(RenderError::UnknownFilter),
                Some(f) => {
                    match env.lookup(&key) {
                        Some(k) => {
                            match apply_filter(f, &env.entries[k].1) {
                                Ok(s) => Ok(to_chars(s.as_str())),
                                Err(e) => Err(e),
                            }
                        },
                        None => Err(RenderError::FormatError),
                    }
                },
            }
        },
    }
}

/// What rendering yields: the text with every `{{ ... }}` placeholder
/// replaced, left to right, by what its body evaluates to; the first
/// failing placeholder's error, or an unclosed-marker error, otherwise.
pub open spec fn render_spec(t: Seq<char>, env: ValueEnv) -> Result<Seq<char>, RenderError>
    decreases t.len(),
    via render_spec_decreases
{
    match find_first(t, open_marker()) {
        None => Ok(t),
        Some(i) => {
            let rest = t.skip(i + 2);
            match find_first(rest, close_marker()) {
                None => Err(RenderError::Unclosed),
                Some(j) => match eval_placeholder_spec(rest.take(j), env) {
                    Err(e) => Err(e),
                    Ok(s) => match render_spec(rest.skip(j + 2), env) {
                        Err(e) => Err(e),
                        Ok(r2) => Ok(t.take(i) + s + r2),
                    },
                },
            }
        },
    }
}

#[via_fn]
proof fn render_spec_decreases(t: Seq<char>, env: ValueEnv) {
    lemma_find_first(t, open_marker());
    match find_first(t, open_marker()) {
        None => {},
        Some(i) => {
            assert(match_at(t, open_marker(), i));
            let rest = t.skip(i + 2);
            lemma_find_first(rest, close_marker());
            match find_first(rest, close_marker()) {
                None => {},
                Some(j) => {
                    assert(match_at(rest, close_marker(), j));
                },
            }
        },
    }
}

/// Renders `template` against `env`, as `render_spec` describes it.
pub fn render_chars(template: &Vec<char>, env: &ValueEnv) -> (r: Result<Vec<char>, RenderError>)
    requires
        env.wf(),
    ensures
        match render_spec(template@, *env) {
            Ok(t) => r matches Ok(v) && v@ == t,
            Err(e) => r matches Err(a) && a == e,
        },
{
    let mut open_pat: Vec<char> = Vec::new();
    open_pat.push('{');
    open_pat.push('{');
    let mut close_pat: Vec<char> = Vec::new();
    close_pat.push('}');
    close_pat.push('}');
    proof {
        assert(open_pat@ =~= open_marker());
        assert(close_pat@ =~= close_marker());
    }
    let mut out: Vec<char> = Vec::new();
    let mut rest: Vec<char> = tail_from(template, 0);
    proof {
        assert(rest@ =~= template@);
        assert(out@ + rest@ =~= template@);
    }
    loop
        invariant
            env.wf(),
            open_pat@ == open_marker(),
            close_pat@ == close_marker(),
            match render_spec(rest@, *env) {
                Ok(t) => render_spec(template@, *env) matches Ok(w) && w == out@ + t,
                Err(e) => render_spec(template@, *env) matches Err(w) && w == e,
            },
        decreases rest@.len(),
    {
        match scan_first(&rest, &open_pat) {
            None => {
                let end = rest.len();
                append_range(&mut out, &rest, 0, end);
                proof {
                    assert(rest@.subrange(0, rest@.len() as int) =~= rest@);
                }
                return Ok(out);
            },
            Some(i) => {
                let n = rest.len();
                proof {
                    lemma_find_first(rest@, open_pat@);
                    assert(match_at(rest@, open_pat@, i as int));
                    assert(i + 2 <= n);
                }
                let after_open = tail_from(&rest, i + 2);
                match scan_first(&after_open, &close_pat) {
                    None => {
                        return Err(RenderError::Unclosed);
                    },
                    Some(j) => {
                        let m = after_open.len();
                        proof {
                            lemma_find_first(after_open@, close_pat@);
                            assert(match_at(after_open@, close_pat@, j as int));
                            assert(j + 2 <= m);
                        }
                        let mut inner: Vec<char> = Vec::new();
                        append_range(&mut inner, &after_open, 0, j);
                        proof {
                            assert(inner@ =~= rest@.skip(i + 2).take(j as int));
                        }
                        match eval_placeholder(&inner, env) {
                            Err(e) => {
                                return Err(e);
                            },
                            Ok(s) => {
                                let ghost prev = rest@;
                                let ghost prev_out = out@;
                                append_range(&mut out, &rest, 0, i);
                                append_range(&mut out, &s, 0, s.len());
                                let next = tail_from(&after_open, j + 2);
                                proof {
                                    assert(s@.subrange(0, s@.len() as int) =~= s@);
                                    assert(prev.subrange(0, i as int) =~= prev.take(i as int));
                                    assert(next@ =~= prev.skip(i + 2).skip(j + 2));
                                    assert(out@ =~= prev_out + prev.take(i as int) + s@);
                                    match render_spec(next@, *env) {
                                        Ok(t) => {
                                            assert(render_spec(prev, *env) matches Ok(w) && w
                                                == prev.take(i as int) + s@ + t);
                                            assert(prev_out + (prev.take(i as int) + s@ + t) =~= out@
                                                + t);
                                        },
                                        Err(_) => {},
                                    }
                                }
                                rest = next;
                            },
                        }
                    },
                }
            },
        }
    }
}

/// Renders `template` against `env`; fixed values and answers rendered with
/// the same environment yield the same output on every call.
pub fn render(template: &str, env: &ValueEnv) -> (r: Result<String, RenderError>)
    requires
        env.wf(),
    ensures
        match render_spec(template@, *env) {
            Ok(t) => r matches Ok(v) && v@ == t,
            Err(e) => r matches Err(a) && a == e,
        },
{
    let chars = to_chars(template);
    match render_chars(&chars, env) {
        Ok(v) => Ok(chars_to_string(&v)),
        Err(e) => Err(e),
    }
}

/// Rendering is a function of the template and the environment alone: any
/// two renderings of the same template against the same environment yield
/// the same result.
pub proof fn lemma_render_deterministic(
    t: Seq<char>,
    env: ValueEnv,
    r1: Result<Seq<char>, RenderError>,
    r2: Result<Seq<char>, RenderError>,
)
    requires
        r1 == render_spec(t, env),
        r2 == render_spec(t, env),
    ensures
        r1 == r2,
{
}

/// A position whose first character differs from the pattern's first
/// character is no match.
proof fn lemma_no_match_at(t: Seq<char>, pat: Seq<char>, k: int)
    requires
        0 <= k,
        k + pat.len() <= t.len(),
        pat.len() > 0,
        t[k] != pat[0],
    ensures
        !match_at(t, pat, k),
{
    if match_at(t, pat, k) {
        assert(t.subrange(k, k + pat.len() as int)[0] == t[k]);
    }
}

/// Rendering the lone filtered placeholder `{{ v | upper }}` applies the
/// uppercase filter to the value bound to `v`: the uppercase transform of
/// a string value, and a formatting error for a non-string or absent
/// value — filters are defined over strings alone.
pub proof fn lemma_upper_placeholder(env: ValueEnv)
    ensures
        env.has("v"@) ==> (env.value_of("v"@) matches EnvValue::Text(s) ==> render_spec(
            "{{ v | upper }}"@,
            env,
        ) == Ok::<Seq<char>, RenderError>(crate::format::upper_of(s@))),
        (env.has("v"@) && !(env.value_of("v"@) is Text)) ==> render_spec("{{ v | upper }}"@, env)
            == Err::<Seq<char>, RenderError>(RenderError::FormatError),
        !env.has("v"@) ==> render_spec("{{ v | upper }}"@, env) == Err::<
            Seq<char>,
            RenderError,
        >(RenderError::FormatError),
{
    let t = "{{ v | upper }}"@;
    reveal_strlit("{{ v | upper }}");
    reveal_strlit("v");
    reveal_strlit("lower");
    reveal_strlit("upper");
    assert(t.len() == 15);
    assert(t.subrange(0, 2) =~= open_marker());
    assert(match_at(t, open_marker(), 0));
    lemma_find_first_unique(t, open_marker(), 0);
    let rest = t.skip(2);
    assert(rest.len() == 13);
    assert(rest.subrange(11, 13) =~= close_marker());
    assert(match_at(rest, close_marker(), 11));
    lemma_no_match_at(rest, close_marker(), 0);
    lemma_no_match_at(rest, close_marker(), 1);
    lemma_no_match_at(rest, close_marker(), 2);
    lemma_no_match_at(rest, close_marker(), 3);
    lemma_no_match_at(rest, close_marker(), 4);
    lemma_no_match_at(rest, close_marker(), 5);
    lemma_no_match_at(rest, close_marker(), 6);
    lemma_no_match_at(rest, close_marker(), 7);
    lemma_no_match_at(rest, close_marker(), 8);
    lemma_no_match_at(rest, close_marker(), 9);
    lemma_no_match_at(rest, close_marker(), 10);
    assert forall|k: int| 0 <= k < 11 implies !match_at(rest, close_marker(), k) by {
        if match_at(rest, close_marker(), k) {
            assert(k == 0 || k == 1 || k == 2 || k == 3 || k == 4 || k == 5 || k == 6 || k == 7
                || k == 8 || k == 9 || k == 10);
        }
    }
    lemma_find_first_unique(rest, close_marker(), 11);
    let inner = rest.take(11);
    assert(inner.len() == 11);
    let pipe = seq!['|'];
    assert(inner.subrange(3, 4) =~= pipe);
    assert(match_at(inner, pipe, 3));
    lemma_no_match_at(inner, pipe, 0);
    lemma_no_match_at(inner, pipe, 1);
    lemma_no_match_at(inner, pipe, 2);
    assert forall|k: int| 0 <= k < 3 implies !match_at(inner, pipe, k) by {
        if match_at(inner, pipe, k) {
            assert(k == 0 || k == 1 || k == 2);
        }
    }
    lemma_find_first_unique(inner, pipe, 3);
    let left = inner.take(3);
    assert(left.len() == 3);
    lemma_drop_trailing(left, 2);
    lemma_drop_leading(left.take(2), 1);
    assert(trimmed(left) =~= "v"@);
    let right = inner.skip(4);
    assert(right.len() == 7);
    lemma_drop_trailing(right, 6);
    lemma_drop_leading(right.take(6), 1);
    assert(trimmed(right) =~= "upper"@);
    assert(filter_name(trimmed(right)) == Some(FilterKind::Upper)) by {
        assert(trimmed(right) != "lower"@) by {
            if trimmed(right) == "lower"@ {
                assert(trimmed(right)[0] == "lower"@[0]);
            }
        }
    }
    let tail = rest.skip(13);
    assert(tail.len() == 0);
    assert(render_spec(tail, env) == Ok::<Seq<char>, RenderError>(tail));
    if env.has("v"@) {
        match env.value_of("v"@) {
            EnvValue::Text(s) => {
                assert(eval_placeholder_spec(inner, env) == Ok::<Seq<char>, RenderError>(
                    crate::format::upper_of(s@),
                ));
                assert(t.take(0) + crate::format::upper_of(s@) + tail =~= crate::format::upper_of(
                    s@,
                ));
            },
            _ => {
                assert(eval_placeholder_spec(inner, env) == Err::<Seq<char>, RenderError>(
                    RenderError::FormatError,
                ));
            },
        }
    } else {
        assert(eval_placeholder_spec(inner, env) == Err::<Seq<char>, RenderError>(
            RenderError::FormatError,
        ));
    }
}

/// The environment a scaffold run starts from: the built-in bindings
/// `project.name`, `author` and `year`, always available whatever the
/// schema adds later.
pub fn base_env(project_name: &str, author: &str, year: i64) -> (r: ValueEnv)
    ensures
        r.wf(),
        r.has("project.name"@) && (r.value_of("project.name"@) matches EnvValue::Text(s) && s@
            == project_name@),
        r.has("author"@) && (r.value_of("author"@) matches EnvValue::Text(s) && s@ == author@),
        r.has("year"@) && r.value_of("year"@) == EnvValue::Integer(year),
        forall|k: Seq<char>|
            k != "project.name"@ && k != "author"@ && k != "year"@ ==> !r.has(k),
{
    let mut env = ValueEnv::new();
    proof {
        reveal_strlit("project.name");
        reveal_strlit("author");
        reveal_strlit("year");
        assert("project.name"@.len() == 12);
        assert("author"@.len() == 6);
        assert("year"@.len() == 4);
    }
    env.bind(
        String::from_str("project.name"),
        EnvValue::Text(String::from_str(project_name)),
    );
    env.bind(String::from_str("author"), EnvValue::Text(String::from_str(author)));
    env.bind(String::from_str("year"), EnvValue::Integer(year));
    env
}

/// Binds a schema answer under the answers namespace: the value becomes
/// `answers.<key>`, so schema-derived bindings never collide with the
/// built-ins.
pub fn bind_answer(env: &mut ValueEnv, key: &str, value: EnvValue)
    requires
        old(env).wf(),
    ensures
        final(env).wf(),
        final(env).has("answers."@ + key@),
        final(env).value_of("answers."@ + key@) == value,
        forall|k: Seq<char>|
            k != "answers."@ + key@ ==> (final(env).has(k) == old(env).has(k)),
        forall|k: Seq<char>|
            k != "answers."@ + key@ && old(env).has(k) ==> final(env).value_of(k) == old(
                env,
            ).value_of(k),
{
    let full = String::from_str("answers.").concat(key);
    env.bind(full, value);
}

} // verus!
