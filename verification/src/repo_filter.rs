//! Selection of the repositories to process: shell-style include and
//! exclude glob rules over candidate names, with the result deduplicated and
//! lexicographically sorted. Glob compilation and matching are the trusted
//! boundary; the selection rule itself is verified.

use vstd::prelude::*;
use crate::batch::{string_views, lemma_dedup_no_duplicates, lemma_dedup_contains};
use crate::error::PatternError;

verus! {

/// Whether a glob pattern parses and its matcher compiles. The name stands
/// for the outcome of `globset::Glob::new` followed by
/// `globset::GlobSetBuilder::build` on that one glob; it depends on the
/// pattern alone.
pub uninterp spec fn glob_pattern_ok(pattern: Seq<char>) -> bool;

/// Whether a glob pattern matches a name. The name stands for the outcome
/// of `globset::GlobSet::is_match` on the set of that one glob; it depends
/// on the pattern and the name alone.
pub uninterp spec fn glob_match(pattern: Seq<char>, name: Seq<char>) -> bool;

/// Relies on `globset::Glob::new` and `globset::GlobSetBuilder::build`:
/// whether a pattern parses as a glob and its matcher compiles (`build`
/// returns the compile error as `Err` instead of panicking).
#[verifier::external_body]
fn check_glob_pattern(pattern: &str) -> (r: bool)
    ensures
        r == glob_pattern_ok(pattern@),
{
    match globset::Glob::new(pattern) {
        Ok(g) => {
            let mut builder = globset::GlobSetBuilder::new();
            builder.add(g);
            builder.build().is_ok()
        },
        Err(_) => false,
    }
}

/// Relies on `globset::Glob::new`, `globset::GlobSetBuilder::build` and
/// `globset::GlobSet::is_match`: whether a well-formed glob matches a name;
/// `None` when the pattern does not parse or its matcher does not compile
/// (`build` returns the compile error as `Err` instead of panicking; a set
/// of one glob matches a name exactly when that glob does).
#[verifier::external_body]
fn glob_match_one(pattern: &str, name: &str) -> (r: Option<bool>)
    ensures
        r is Some <==> glob_pattern_ok(pattern@),
        r is Some ==> r.unwrap() == glob_match(pattern@, name@),
{
    let glob = match globset::Glob::new(pattern) {
        Ok(g) => g,
        Err(_) => return None,
    };
    let mut builder = globset::GlobSetBuilder::new();
    builder.add(glob);
    match builder.build() {
        Ok(set) => Some(set.is_match(name)),
        Err(_) => None,
    }
}

/// Whether every pattern of the list is a well-formed glob.
pub open spec fn spec_patterns_ok(patterns: Seq<Seq<char>>) -> bool {
    forall|i: int| 0 <= i < patterns.len() ==> glob_pattern_ok(#[trigger] patterns[i])
}

/// Whether any pattern of the list matches the name, as a set of globs
/// matches.
pub open spec fn spec_any_match(patterns: Seq<Seq<char>>, name: Seq<char>) -> bool {
    exists|i: int| 0 <= i < patterns.len() && glob_match(#[trigger] patterns[i], name)
}

/// The views of an optional pattern list; patterns left unconfigured stay
/// `None`.
pub open spec fn spec_opt_patterns(o: Option<&Vec<String>>) -> Option<Seq<Seq<char>>> {
    match o {
        Some(v) => Some(string_views(v@)),
        None => None,
    }
}

/// The selection rule for one candidate name: included exactly when the
/// include list is absent or some include pattern matches, and the exclude
/// list is absent or no exclude pattern matches. An exclude match vetoes
/// the name even when an include pattern matches it; with no patterns
/// configured at all every name is included.
pub open spec fn spec_included(
    name: Seq<char>,
    includes: Option<Seq<Seq<char>>>,
    excludes: Option<Seq<Seq<char>>>,
) -> bool {
    (match includes {
        None => true,
        Some(ps) => spec_any_match(ps, name),
    }) && (match excludes {
        None => true,
        Some(ps) => !spec_any_match(ps, name),
    })
}

/// Whether any of the (well-formed) patterns matches the name.
fn any_glob_match(patterns: &Vec<String>, name: &str) -> (r: bool)
    requires
        spec_patterns_ok(string_views(patterns@)),
    ensures
        r == spec_any_match(string_views(patterns@), name@),
{
    let ghost pv = string_views(patterns@);
    let mut i: usize = 0;
    while i < patterns.len()
        invariant
            i <= patterns.len(),
            pv == string_views(patterns@),
            patterns@.len() == pv.len(),
            spec_patterns_ok(pv),
            forall|m: int| 0 <= m < i ==> !glob_match(#[trigger] pv[m], name@),
        decreases patterns.len() - i,
    {
        match glob_match_one(patterns[i].as_str(), name) {
            Some(true) => {
                proof {
                    assert(glob_match(pv[i as int], name@));
                }
                return true;
            },
            Some(false) => {},
            None => {
                proof {
                    assert(glob_pattern_ok(pv[i as int]));
                    assert(false);
                }
            },
        }
        i += 1;
    }
    false
}

/// The first pattern of the list that is not a well-formed glob, if any.
fn first_bad_pattern(patterns: &Vec<String>) -> (r: Option<String>)
    ensures
        r is None <==> spec_patterns_ok(string_views(patterns@)),
        r is Some ==> !glob_pattern_ok(r.unwrap()@) && string_views(patterns@).contains(
            r.unwrap()@,
        ),
{
    let ghost pv = string_views(patterns@);
    let mut i: usize = 0;
    while i < patterns.len()
        invariant
            i <= patterns.len(),
            pv == string_views(patterns@),
            patterns@.len() == pv.len(),
            forall|m: int| 0 <= m < i ==> glob_pattern_ok(#[trigger] pv[m]),
        decreases patterns.len() - i,
    {
        if !check_glob_pattern(patterns[i].as_str()) {
            proof {
                assert(!glob_pattern_ok(pv[i as int]));
            }
            return Some(patterns[i].clone());
        }
        i += 1;
    }
    None
}

/// Decides one candidate name against the configured includes and excludes
/// patterns, by the selection rule of `spec_included`; an ill-formed
/// pattern in either list is an error naming that pattern.
pub fn repository_included(
    name: &str,
    includes: Option<&Vec<String>>,
    excludes: Option<&Vec<String>>,
) -> (r: Result<bool, PatternError>)
    ensures
        r is Ok <==> (match spec_opt_patterns(includes) {
            Some(p) => spec_patterns_ok(p),
            None => true,
        } && match spec_opt_patterns(excludes) {
            Some(p) => spec_patterns_ok(p),
            None => true,
        }),
        r is Ok ==> r->Ok_0 == spec_included(
            name@,
            spec_opt_patterns(includes),
            spec_opt_patterns(excludes),
        ),
        r is Err ==> !glob_pattern_ok(r->Err_0.pattern@),
{
    match includes {
        Some(patterns) => match first_bad_pattern(patterns) {
            Some(p) => {
                return Err(PatternError { pattern: p });
            },
            None => {},
        },
        None => {},
    }
    match excludes {
        Some(patterns) => match first_bad_pattern(patterns) {
            Some(p) => {
                return Err(PatternError { pattern: p });
            },
            None => {},
        },
        None => {},
    }
    if let Some(patterns) = includes {
        if !any_glob_match(patterns, name) {
            return Ok(false);
        }
    }
    if let Some(patterns) = excludes {
        if any_glob_match(patterns, name) {
            return Ok(false);
        }
    }
    Ok(true)
}

/// Lexicographic order on character sequences: the empty sequence first,
/// then by the first differing character.
pub open spec fn lex_le(a: Seq<char>, b: Seq<char>) -> bool
    decreases a.len(),
{
    if a.len() == 0 {
        true
    } else if b.len() == 0 {
        false
    } else if a.first() < b.first() {
        true
    } else if a.first() == b.first() {
        lex_le(a.drop_first(), b.drop_first())
    } else {
        false
    }
}

/// Relies on `<[String]>::sort` of std: a stable ascending sort by
/// `String`'s `Ord`, which orders strings by their UTF-8 bytes; on UTF-8
/// the byte order agrees with the order of the characters, so the result is
/// a permutation of the input sorted by `lex_le` over the views.
#[verifier::external_body]
fn sort_strings(v: &mut Vec<String>)
    ensures
        string_views(final(v)@).to_multiset() == string_views(old(v)@).to_multiset(),
        forall|i: int, j: int|
            0 <= i <= j < final(v)@.len() ==> #[trigger] lex_le(
                string_views(final(v)@)[i],
                string_views(final(v)@)[j],
            ),
{
    v.sort();
}

/// The sorted, deduplicated set of repository names to process: every
/// candidate the selection rule includes, each name once, in lexicographic
/// order. An ill-formed pattern in either list is an error naming the first
/// such pattern.
pub fn filter_repository_names(
    names: &Vec<String>,
    includes: Option<&Vec<String>>,
    excludes: Option<&Vec<String>>,
) -> (r: Result<Vec<String>, PatternError>)
    ensures
        r is Ok <==> (match spec_opt_patterns(includes) {
            Some(p) => spec_patterns_ok(p),
            None => true,
        } && match spec_opt_patterns(excludes) {
            Some(p) => spec_patterns_ok(p),
            None => true,
        }),
        r is Ok ==> forall|i: int, j: int|
            0 <= i <= j < string_views(r->Ok_0@).len() ==> #[trigger] lex_le(
                string_views(r->Ok_0@)[i],
                string_views(r->Ok_0@)[j],
            ),
        r is Ok ==> string_views(r->Ok_0@).no_duplicates(),
        r is Ok ==> forall|x: Seq<char>|
            #[trigger] string_views(r->Ok_0@).contains(x) <==> (string_views(names@).contains(x)
                && spec_included(x, spec_opt_patterns(includes), spec_opt_patterns(excludes))),
        r is Err ==> !glob_pattern_ok(r->Err_0.pattern@),
{
    match includes {
        Some(patterns) => match first_bad_pattern(patterns) {
            Some(p) => {
                return Err(PatternError { pattern: p });
            },
            None => {},
        },
        None => {},
    }
    match excludes {
        Some(patterns) => match first_bad_pattern(patterns) {
            Some(p) => {
                return Err(PatternError { pattern: p });
            },
            None => {},
        },
        None => {},
    }
    let ghost nv = string_views(names@);
    let mut kept: Vec<String> = Vec::new();
    let mut i: usize = 0;
    while i < names.len()
        invariant
            i <= names.len(),
            nv == string_views(names@),
            names@.len() == nv.len(),
            match spec_opt_patterns(includes) {
                Some(p) => spec_patterns_ok(p),
                None => true,
            },
            match spec_opt_patterns(excludes) {
                Some(p) => spec_patterns_ok(p),
                None => true,
            },
            forall|x: Seq<char>|
                #[trigger] string_views(kept@).contains(x) ==> (nv.contains(x) && spec_included(
                    x,
                    spec_opt_patterns(includes),
                    spec_opt_patterns(excludes),
                )),
            forall|m: int|
                0 <= m < i && spec_included(
                    #[trigger] nv[m],
                    spec_opt_patterns(includes),
                    spec_opt_patterns(excludes),
                ) ==> string_views(kept@).contains(nv[m]),
        decreases names.len() - i,
    {
        let keep = match repository_included(names[i].as_str(), includes, excludes) {
            Ok(b) => b,
            Err(_) => {
                proof {
                    assert(false);
                }
                false
            },
        };
        if keep {
            let ghost prev = string_views(kept@);
            kept.push(names[i].clone());
            proof {
                assert(string_views(kept@) =~= prev.push(nv[i as int]));
                assert(string_views(kept@)[prev.len() as int] == nv[i as int]);
                assert forall|x: Seq<char>| #[trigger]
                    string_views(kept@).contains(x) implies (nv.contains(x) && spec_included(
                    x,
                    spec_opt_patterns(includes),
                    spec_opt_patterns(excludes),
                )) by {
                    let w = choose|w: int|
                        0 <= w < string_views(kept@).len() && string_views(kept@)[w] == x;
                    if w < prev.len() {
                        assert(prev.contains(x));
                    } else {
                        assert(x == nv[i as int]);
                        assert(nv.contains(x));
                    }
                }
                assert forall|m: int|
                    0 <= m < i + 1 && spec_included(
                        #[trigger] nv[m],
                        spec_opt_patterns(includes),
                        spec_opt_patterns(excludes),
                    ) implies string_views(kept@).contains(nv[m]) by {
                    if m < i {
                        assert(prev.contains(nv[m]));
                        let w = choose|w: int| 0 <= w < prev.len() && prev[w] == nv[m];
                        assert(string_views(kept@)[w] == nv[m]);
                    }
                }
            }
        }
        i += 1;
    }
    let mut distinct = crate::batch::dedup_digests(&kept);
    proof {
        let kv = string_views(kept@);
        lemma_dedup_no_duplicates(kv);
        assert forall|x: Seq<char>| #[trigger]
            string_views(distinct@).contains(x) == kv.contains(x) by {
            lemma_dedup_contains(kv, x);
        }
    }
    let ghost pre = string_views(distinct@);
    sort_strings(&mut distinct);
    proof {
        broadcast use vstd::seq_lib::group_to_multiset_ensures;

        let post = string_views(distinct@);
        pre.lemma_multiset_has_no_duplicates();
        assert forall|x: Seq<char>| #[trigger] post.contains(x) == pre.contains(x) by {
            assert(post.contains(x) <==> post.to_multiset().count(x) > 0);
            assert(pre.contains(x) <==> pre.to_multiset().count(x) > 0);
        }
        assert forall|x: Seq<char>|
            post.to_multiset().contains(x) implies post.to_multiset().count(x) == 1 by {
            assert(pre.to_multiset().contains(x));
        }
        post.lemma_multiset_has_no_duplicates_conv();
    }
    Ok(distinct)
}

} // verus!
