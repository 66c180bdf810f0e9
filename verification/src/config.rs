//! The service registry: short prefixes mapped to git-server URL templates,
//! with a default prefix, and resolution of `prefix:path` references to full
//! clone URLs.

use vstd::prelude::*;

use crate::text::append_range;
use crate::text::chars_eq_str;
use crate::text::chars_to_string;
use crate::text::find_first;
use crate::text::lemma_find_first;
use crate::text::match_at;
use crate::text::replace_all;
use crate::text::replace_chars;
use crate::text::scan_first;
use crate::text::tail_from;
use crate::text::to_chars;

verus! {

/// A git server's URL template; it carries the repository path marker
/// `{{ repo }}` where the repository path is substituted.
pub struct BaseURL {
    /// The URL format for the git server.
    pub url: String,
}

/// One registry row: a prefix bound to a URL template.
pub struct ServiceEntry {
    /// Short alias for the git hosting service, e.g. `gh`.
    pub prefix: String,
    /// The service's URL template.
    pub base: BaseURL,
}

/// The service registry: an ordered table of prefix bindings plus the
/// default prefix used when a reference carries none.
pub struct Config {
    /// Bindings of prefixes to git server URL formats; prefixes are unique.
    pub services: Vec<ServiceEntry>,
    /// Default prefix when one is not specified at the command line.
    pub default_service: String,
}

/// Failure of a registry operation.
#[derive(Clone, Copy, Debug, PartialEq, Eq, Structural)]
pub enum ConfigErrorKind {
    /// The named service prefix is not in the registry (nor, for resolution,
    /// is the default prefix).
    ServiceNotFound,
}

/// The marker inside a URL template that stands for the repository path.
pub open spec fn repo_marker() -> Seq<char> {
    "{{ repo }}"@
}

/// Prefixes of a registry table are unique.
pub open spec fn table_wf(s: Seq<ServiceEntry>) -> bool {
    forall|i: int, j: int| 0 <= i < j < s.len() ==> s[i].prefix@ != s[j].prefix@
}

/// The table has a binding for prefix `p`.
pub open spec fn table_has(s: Seq<ServiceEntry>, p: Seq<char>) -> bool {
    exists|i: int| 0 <= i < s.len() && s[i].prefix@ == p
}

/// Index of the binding for prefix `p` (meaningful when `table_has`).
pub open spec fn table_index(s: Seq<ServiceEntry>, p: Seq<char>) -> int {
    choose|i: int| 0 <= i < s.len() && s[i].prefix@ == p
}

/// URL template bound to prefix `p` (meaningful when `table_has`).
pub open spec fn table_url(s: Seq<ServiceEntry>, p: Seq<char>) -> Seq<char> {
    s[table_index(s, p)].base.url@
}

/// In a table with unique prefixes, an index whose entry carries prefix `p`
/// is the lookup index.
pub proof fn lemma_table_index_unique(s: Seq<ServiceEntry>, p: Seq<char>, i: int)
    requires
        table_wf(s),
        0 <= i < s.len(),
        s[i].prefix@ == p,
    ensures
        table_has(s, p),
        table_index(s, p) == i,
        table_url(s, p) == s[i].base.url@,
{
    assert(table_has(s, p));
    let w = table_index(s, p);
    assert(0 <= w < s.len() && s[w].prefix@ == p);
    if w != i {
        if w < i {
            assert(s[w].prefix@ != s[i].prefix@);
        } else {
            assert(s[i].prefix@ != s[w].prefix@);
        }
    }
}

/// Two tables whose rows carry pointwise equal prefixes bind the same set of
/// prefixes.
proof fn lemma_table_same_prefixes(a: Seq<ServiceEntry>, b: Seq<ServiceEntry>, p: Seq<char>)
    requires
        a.len() == b.len(),
        forall|k: int| 0 <= k < a.len() ==> a[k].prefix@ == b[k].prefix@,
    ensures
        table_has(a, p) == table_has(b, p),
{
    if table_has(a, p) {
        let i = table_index(a, p);
        assert(b[i].prefix@ == p);
    }
    if table_has(b, p) {
        let i = table_index(b, p);
        assert(a[i].prefix@ == p);
    }
}

/// Prefix of a raw reference: the part before the first `:`, or the
/// registry default when the reference has no `:`.
pub open spec fn ref_prefix(r: Seq<char>, default: Seq<char>) -> Seq<char> {
    match find_first(r, seq![':']) {
        Some(i) => r.take(i),
        None => default,
    }
}

/// Repository path of a raw reference: the part after the first `:`, or the
/// whole reference when it has no `:`.
pub open spec fn ref_path(r: Seq<char>) -> Seq<char> {
    match find_first(r, seq![':']) {
        Some(i) => r.skip(i + 1),
        None => r,
    }
}

impl Config {
    /// Prefixes are unique keys of the registry.
    pub open spec fn wf(self) -> bool {
        table_wf(self.services@)
    }

    /// The registry has a binding for prefix `p`.
    pub open spec fn has_service(self, p: Seq<char>) -> bool {
        table_has(self.services@, p)
    }

    /// URL template bound to prefix `p` (meaningful when `has_service`).
    pub open spec fn url_of(self, p: Seq<char>) -> Seq<char> {
        table_url(self.services@, p)
    }

    /// Index of the binding for `prefix`, if the registry has one.
    pub fn find_service(&self, prefix: &Vec<char>) -> (r: Option<usize>)
        requires
            self.wf(),
        ensures
            match r {
                Some(i) => self.has_service(prefix@) && i == table_index(self.services@, prefix@)
                    && self.services@[i as int].prefix@ == prefix@,
                None => !self.has_service(prefix@),
            },
    {
        let mut i: usize = 0;
        let n = self.services.len();
        while i < n
            invariant
                self.wf(),
                n == self.services@.len(),
                i <= n,
                forall|k: int| 0 <= k < i ==> self.services@[k].prefix@ != prefix@,
            decreases n - i,
        {
            if chars_eq_str(prefix, self.services[i].prefix.as_str()) {
                proof {
                    lemma_table_index_unique(self.services@, prefix@, i as int);
                }
                return Some(i);
            }
            i = i + 1;
        }
        None
    }

    /// The clone URL for `prefix` and `repo_path`: the URL template bound to
    /// `prefix` — or to the default prefix when `prefix` is unknown — with
    /// every repository marker replaced by `repo_path`.
    pub fn clone_url(&self, prefix: &str, repo_path: &str) -> (r: String)
        requires
            self.wf(),
            self.has_service(prefix@) || self.has_service(self.default_service@),
        ensures
            self.has_service(prefix@) ==> r@ == replace_all(
                self.url_of(prefix@),
                repo_marker(),
                repo_path@,
            ),
            !self.has_service(prefix@) ==> r@ == replace_all(
                self.url_of(self.default_service@),
                repo_marker(),
                repo_path@,
            ),
    {
        let prefix_chars = to_chars(prefix);
        let idx: usize = match self.find_service(&prefix_chars) {
            Some(i) => i,
            None => {
                let default_chars = to_chars(self.default_service.as_str());
                match self.find_service(&default_chars) {
                    Some(i) => i,
                    None => {
                        proof {
                            assert(false);
                        }
                        vstd::pervasive::unreached()
                    },
                }
            },
        };
        let template = to_chars(self.services[idx].base.url.as_str());
        let marker = to_chars("{{ repo }}");
        proof {
            reveal_strlit("{{ repo }}");
        }
        let path_chars = to_chars(repo_path);
        let replaced = replace_chars(&template, &marker, &path_chars);
        chars_to_string(&replaced)
    }

    /// Binds `prefix` to `url`. An existing binding for the same prefix is
    /// overwritten; any other binding is kept unchanged.
    pub fn add_service(&mut self, prefix: String, url: String) -> (r: Result<(), ConfigErrorKind>)
        requires
            old(self).wf(),
        ensures
            r is Ok,
            final(self).wf(),
            final(self).has_service(prefix@),
            final(self).url_of(prefix@) == url@,
            final(self).default_service@ == old(self).default_service@,
            forall|p: Seq<char>|
                p != prefix@ ==> (final(self).has_service(p) == old(self).has_service(p)),
            forall|p: Seq<char>|
                p != prefix@ && old(self).has_service(p) ==> final(self).url_of(p) == old(
                    self,
                ).url_of(p),
    {
        let ghost before = self.services@;
        let prefix_chars = to_chars(prefix.as_str());
        match self.find_service(&prefix_chars) {
            Some(i) => {
                self.services.set(i, ServiceEntry { prefix, base: BaseURL { url } });
                proof {
                    let after = self.services@;
                    assert(forall|k: int|
                        0 <= k < after.len() ==> after[k].prefix@ == before[k].prefix@);
                    assert(table_wf(after));
                    lemma_table_index_unique(after, prefix_chars@, i as int);
                    assert forall|p: Seq<char>| p != prefix_chars@ implies (table_has(after, p)
                        == table_has(before, p)) by {
                        lemma_table_same_prefixes(before, after, p);
                    }
                    assert forall|p: Seq<char>| p != prefix_chars@ && table_has(before, p) implies
                        table_url(after, p) == table_url(before, p) by {
                        let w = table_index(before, p);
                        assert(0 <= w < before.len() && before[w].prefix@ == p);
                        lemma_table_index_unique(after, p, w);
                        lemma_table_index_unique(before, p, w);
                        assert(w != i);
                    }
                }
                Ok(())
            },
            None => {
                self.services.push(ServiceEntry { prefix, base: BaseURL { url } });
                proof {
                    let after = self.services@;
                    assert(forall|k: int| 0 <= k < before.len() ==> after[k] == before[k]);
                    assert(forall|k: int|
                        0 <= k < before.len() ==> before[k].prefix@ != prefix_chars@);
                    assert(table_wf(after));
                    lemma_table_index_unique(after, prefix_chars@, before.len() as int);
                    assert forall|p: Seq<char>| p != prefix_chars@ implies (table_has(after, p)
                        == table_has(before, p)) by {
                        if table_has(after, p) {
                            let w = table_index(after, p);
                            assert(w < before.len());
                            assert(before[w].prefix@ == p);
                        }
                        if table_has(before, p) {
                            let w = table_index(before, p);
                            assert(after[w].prefix@ == p);
                        }
                    }
                    assert forall|p: Seq<char>| p != prefix_chars@ && table_has(before, p) implies
                        table_url(after, p) == table_url(before, p) by {
                        let w = table_index(before, p);
                        assert(0 <= w < before.len() && before[w].prefix@ == p);
                        lemma_table_index_unique(after, p, w);
                        lemma_table_index_unique(before, p, w);
                    }
                }
                Ok(())
            },
        }
    }

    /// Removes the binding for `prefix`; fails with `ServiceNotFound` when
    /// the registry has none. Every other binding is kept unchanged.
    pub fn remove_service(&mut self, prefix: &str) -> (r: Result<(), ConfigErrorKind>)
        requires
            old(self).wf(),
        ensures
            r is Ok <==> old(self).has_service(prefix@),
            r is Err ==> r == Err::<(), ConfigErrorKind>(ConfigErrorKind::ServiceNotFound)
                && *final(self) == *old(self),
            final(self).wf(),
            final(self).default_service@ == old(self).default_service@,
            !final(self).has_service(prefix@),
            forall|p: Seq<char>|
                p != prefix@ ==> (final(self).has_service(p) == old(self).has_service(p)),
            forall|p: Seq<char>|
                p != prefix@ && old(self).has_service(p) ==> final(self).url_of(p) == old(
                    self,
                ).url_of(p),
    {
        let ghost before = self.services@;
        let prefix_chars = to_chars(prefix);
        match self.find_service(&prefix_chars) {
            Some(i) => {
                self.services.remove(i);
                proof {
                    let after = self.services@;
                    assert(after =~= before.remove(i as int));
                    assert(forall|k: int| 0 <= k < i ==> after[k] == before[k]);
                    assert(forall|k: int|
                        i <= k < after.len() ==> after[k] == before[k + 1]);
                    assert forall|k: int| 0 <= k < after.len() implies after[k].prefix@
                        != prefix_chars@ by {
                        if k < i {
                            assert(before[k].prefix@ != before[i as int].prefix@);
                        } else {
                            assert(before[i as int].prefix@ != before[k + 1].prefix@);
                        }
                    }
                    assert(table_wf(after)) by {
                        assert forall|x: int, y: int| 0 <= x < y < after.len() implies
                            after[x].prefix@ != after[y].prefix@ by {
                            let bx = if x < i {
                                x
                            } else {
                                x + 1
                            };
                            let by = if y < i {
                                y
                            } else {
                                y + 1
                            };
                            assert(after[x] == before[bx]);
                            assert(after[y] == before[by]);
                        }
                    }
                    assert forall|p: Seq<char>| p != prefix_chars@ implies (table_has(after, p)
                        == table_has(before, p)) by {
                        if table_has(after, p) {
                            let w = table_index(after, p);
                            let bw = if w < i {
                                w
                            } else {
                                w + 1
                            };
                            assert(before[bw].prefix@ == p);
                        }
                        if table_has(before, p) {
                            let w = table_index(before, p);
                            assert(w != i);
                            let aw = if w < i {
                                w
                            } else {
                                w - 1
                            };
                            assert(after[aw].prefix@ == p);
                        }
                    }
                    assert forall|p: Seq<char>| p != prefix_chars@ && table_has(before, p) implies
                        table_url(after, p) == table_url(before, p) by {
                        let w = table_index(before, p);
                        assert(0 <= w < before.len() && before[w].prefix@ == p);
                        assert(w != i);
                        let aw = if w < i {
                            w
                        } else {
                            w - 1
                        };
                        assert(after[aw].prefix@ == p);
                        lemma_table_index_unique(after, p, aw);
                        lemma_table_index_unique(before, p, w);
                        assert(after[aw] == before[w]);
                    }
                }
                Ok(())
            },
            None => Err(ConfigErrorKind::ServiceNotFound),
        }
    }

    /// Makes `prefix` the default; fails with `ServiceNotFound` when the
    /// registry has no binding for it. Bindings are never changed.
    pub fn set_default_service(&mut self, prefix: &str) -> (r: Result<(), ConfigErrorKind>)
        requires
            old(self).wf(),
        ensures
            r is Ok <==> old(self).has_service(prefix@),
            r is Ok ==> final(self).default_service@ == prefix@,
            r is Err ==> r == Err::<(), ConfigErrorKind>(ConfigErrorKind::ServiceNotFound)
                && *final(self) == *old(self),
            final(self).services == old(self).services,
            final(self).wf(),
    {
        let prefix_chars = to_chars(prefix);
        match self.find_service(&prefix_chars) {
            Some(_) => {
                self.default_service = chars_to_string(&prefix_chars);
                Ok(())
            },
            None => Err(ConfigErrorKind::ServiceNotFound),
        }
    }

    /// The registry a fresh installation starts from: GitHub under the
    /// prefix `gh`, which is also the default.
    pub fn starter() -> (r: Config)
        ensures
            r.wf(),
            r.services@.len() == 1,
            r.services@[0].prefix@ == "gh"@,
            r.services@[0].base.url@ == "https://github.com/{{ repo }}.git"@,
            r.default_service@ == "gh"@,
    {
        let mut services: Vec<ServiceEntry> = Vec::new();
        services.push(
            ServiceEntry {
                prefix: String::from_str("gh"),
                base: BaseURL { url: String::from_str("https://github.com/{{ repo }}.git") },
            },
        );
        Config { services, default_service: String::from_str("gh") }
    }
}

/// Resolves a raw `prefix:path` (or bare `path`) reference against the
/// registry: the URL template of the requested prefix — or of the default
/// prefix when the requested one is unknown — with the repository marker
/// replaced by the path. Fails with `ServiceNotFound` exactly when neither
/// the requested nor the default prefix is bound.
pub fn resolve(reference: &str, config: &Config) -> (r: Result<String, ConfigErrorKind>)
    requires
        config.wf(),
    ensures
        r is Ok <==> (config.has_service(ref_prefix(reference@, config.default_service@))
            || config.has_service(config.default_service@)),
        r is Err ==> r == Err::<String, ConfigErrorKind>(ConfigErrorKind::ServiceNotFound),
        config.has_service(ref_prefix(reference@, config.default_service@)) ==> (r matches Ok(u)
            && u@ == replace_all(
            config.url_of(ref_prefix(reference@, config.default_service@)),
            repo_marker(),
            ref_path(reference@),
        )),
        !config.has_service(ref_prefix(reference@, config.default_service@))
            && config.has_service(config.default_service@) ==> (r matches Ok(u) && u@
            == replace_all(config.url_of(config.default_service@), repo_marker(), ref_path(reference@))),
{
    let chars = to_chars(reference);
    let mut colon: Vec<char> = Vec::new();
    colon.push(':');
    proof {
        assert(colon@ =~= seq![':']);
    }
    let (prefix_chars, path_chars): (Vec<char>, Vec<char>) = match scan_first(&chars, &colon) {
        Some(i) => {
            let n = chars.len();
            proof {
                lemma_find_first(chars@, colon@);
                assert(match_at(chars@, colon@, i as int));
                assert(i + 1 <= n);
            }
            let mut pc: Vec<char> = Vec::new();
            append_range(&mut pc, &chars, 0, i);
            let rest = tail_from(&chars, i + 1);
            proof {
                assert(pc@ =~= reference@.take(i as int));
            }
            (pc, rest)
        },
        None => {
            let pc = to_chars(config.default_service.as_str());
            let rest = tail_from(&chars, 0);
            proof {
                assert(rest@ =~= reference@);
            }
            (pc, rest)
        },
    };
    proof {
        assert(prefix_chars@ == ref_prefix(reference@, config.default_service@));
        assert(path_chars@ == ref_path(reference@));
    }
    let idx: usize = match config.find_service(&prefix_chars) {
        Some(i) => i,
        None => {
            let default_chars = to_chars(config.default_service.as_str());
            match config.find_service(&default_chars) {
                Some(i) => i,
                None => {
                    return Err(ConfigErrorKind::ServiceNotFound);
                },
            }
        },
    };
    let template = to_chars(config.services[idx].base.url.as_str());
    let marker = to_chars("{{ repo }}");
    proof {
        reveal_strlit("{{ repo }}");
    }
    let replaced = replace_chars(&template, &marker, &path_chars);
    Ok(chars_to_string(&replaced))
}

} // verus!
