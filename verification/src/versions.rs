//! The version-pruning policy: among sibling directories named
//! `<AppName><DottedVersion>`, keep the lexicographically greatest version of
//! each application and mark every other version for cleanup. On a caches
//! root, the kept version additionally yields three rebuildable cache
//! sub-paths.
//!
//! The directory listing itself happens outside the library; this module
//! takes the child names as plain strings.
//!
//! The comparison is plain lexicographic on the version string, not a
//! numeric version order: `"2.0"` beats `"10.0"`. That is a documented,
//! deliberate simplification of the original policy, kept as it is.

use vstd::prelude::*;
use vstd::pervasive::VecAdditionalExecFns;
use vstd::string::{StrSliceExecFns, StringExecFns};
use crate::entry::{entry_views, lemma_entry_views_push, CleanEntry, EntryView};
use crate::strutil::{
    contains_char, contains_substr, has_char, has_substring, lex_le, lex_lt, str_lt,
};

verus! {

/// Whether a character counts as alphabetic (the Unicode property that
/// `char::is_alphabetic` decides); a function of the character alone.
pub uninterp spec fn is_alphabetic_char(c: char) -> bool;

/// Relies on `char::is_alphabetic`: whether the character has the Unicode
/// `Alphabetic` property, a fixed function of the character.
#[verifier::external_body]
fn alphabetic(c: char) -> (r: bool)
    ensures
        r == is_alphabetic_char(c),
{
    c.is_alphabetic()
}

/// Length of the longest alphabetic prefix of `s`.
pub open spec fn alpha_prefix_len(s: Seq<char>) -> int
    decreases s.len(),
{
    if s.len() == 0 || !is_alphabetic_char(s[0]) {
        0
    } else {
        1 + alpha_prefix_len(s.drop_first())
    }
}

/// The alphabetic prefix length is the unique cut `k` with only alphabetic
/// characters before it and, unless the name ends there, a non-alphabetic
/// character at it.
proof fn lemma_alpha_prefix_len_is(s: Seq<char>, k: int)
    requires
        0 <= k <= s.len(),
        forall|j: int| 0 <= j < k ==> is_alphabetic_char(s[j]),
        k == s.len() || !is_alphabetic_char(s[k]),
    ensures
        alpha_prefix_len(s) == k,
    decreases s.len(),
{
    if k == 0 {
    } else {
        let t = s.drop_first();
        assert(forall|j: int| 0 <= j < k - 1 ==> is_alphabetic_char(#[trigger] t[j])) by {
            assert(forall|j: int| 0 <= j < k - 1 ==> #[trigger] t[j] == s[j + 1]);
        }
        assert(k - 1 == t.len() || !is_alphabetic_char(t[k - 1]));
        lemma_alpha_prefix_len_is(t, k - 1);
    }
}

/// The application name: the alphabetic prefix of the directory name.
pub open spec fn app_of(name: Seq<char>) -> Seq<char> {
    name.subrange(0, alpha_prefix_len(name))
}

/// The version string: what follows the alphabetic prefix.
pub open spec fn ver_of(name: Seq<char>) -> Seq<char> {
    name.subrange(alpha_prefix_len(name), name.len() as int)
}

/// A directory name takes part in version pruning only when a version string
/// follows the alphabetic prefix and that string contains a dot.
pub open spec fn eligible(name: Seq<char>) -> bool {
    ver_of(name).len() > 0 && has_char(ver_of(name), '.')
}

/// Split a directory name into its alphabetic application prefix and the
/// trailing version string.
pub fn split_app_version(name: &String) -> (r: (String, String))
    ensures
        r.0@ == app_of(name@),
        r.1@ == ver_of(name@),
{
    let len = name.as_str().unicode_len();
    let mut k: usize = 0;
    loop
        invariant
            k <= len,
            len == name@.len(),
            forall|j: int| 0 <= j < k ==> is_alphabetic_char(#[trigger] name@[j]),
        ensures
            k <= len,
            len == name@.len(),
            forall|j: int| 0 <= j < k ==> is_alphabetic_char(#[trigger] name@[j]),
            k == len || !is_alphabetic_char(name@[k as int]),
        decreases len - k,
    {
        if k >= len {
            break;
        }
        if !alphabetic(name.as_str().get_char(k)) {
            break;
        }
        k += 1;
    }
    proof {
        lemma_alpha_prefix_len_is(name@, k as int);
    }
    let app = String::from_str(name.as_str().substring_char(0, k));
    let ver = String::from_str(name.as_str().substring_char(k, len));
    (app, ver)
}

/// One parsed, eligible directory name: application and version.
pub ghost struct VersionPair {
    pub app: Seq<char>,
    pub ver: Seq<char>,
}

/// The parsed pair of a name.
pub open spec fn pair_of(name: Seq<char>) -> VersionPair {
    VersionPair { app: app_of(name), ver: ver_of(name) }
}

/// The pairs of the eligible names, in listing order.
pub open spec fn eligible_pairs(names: Seq<String>) -> Seq<VersionPair>
    decreases names.len(),
{
    if names.len() == 0 {
        Seq::empty()
    } else {
        eligible_pairs(names.drop_last()) + if eligible(names.last()@) {
            seq![pair_of(names.last()@)]
        } else {
            Seq::empty()
        }
    }
}

/// The image of an application/version list as parsed pairs.
pub open spec fn pairs_view(s: Seq<(String, String)>) -> Seq<VersionPair> {
    s.map_values(|p: (String, String)| VersionPair { app: p.0@, ver: p.1@ })
}

/// Index of the first pair with the given application name, if any.
pub open spec fn find_app_spec(keep: Seq<VersionPair>, app: Seq<char>) -> Option<int>
    decreases keep.len(),
{
    if keep.len() == 0 {
        None
    } else if keep[0].app == app {
        Some(0)
    } else {
        match find_app_spec(keep.drop_first(), app) {
            None => None,
            Some(i) => Some(i + 1),
        }
    }
}

/// `find_app_spec` returns the first matching index, and `None` exactly when
/// no pair matches.
pub proof fn lemma_find_app_char(keep: Seq<VersionPair>, app: Seq<char>, k: int)
    requires
        0 <= k <= keep.len(),
        forall|j: int| 0 <= j < k ==> (#[trigger] keep[j].app) != app,
        k == keep.len() || keep[k].app == app,
    ensures
        find_app_spec(keep, app) == if k == keep.len() {
            None::<int>
        } else {
            Some(k)
        },
    decreases keep.len(),
{
    if keep.len() == 0 {
    } else if k == 0 {
    } else {
        let t = keep.drop_first();
        assert(forall|j: int| 0 <= j < k - 1 ==> (#[trigger] t[j].app) != app) by {
            assert(forall|j: int| 0 <= j < k - 1 ==> #[trigger] t[j] == keep[j + 1]);
        }
        assert(k - 1 == t.len() || t[k - 1].app == app);
        lemma_find_app_char(t, app, k - 1);
    }
}

/// `None` means no pair matches.
pub proof fn lemma_find_app_none(keep: Seq<VersionPair>, app: Seq<char>)
    requires
        find_app_spec(keep, app) is None,
    ensures
        forall|i: int| 0 <= i < keep.len() ==> (#[trigger] keep[i].app) != app,
    decreases keep.len(),
{
    if keep.len() > 0 {
        let t = keep.drop_first();
        lemma_find_app_none(t, app);
        assert forall|i: int| 0 <= i < keep.len() implies (#[trigger] keep[i].app) != app by {
            if i > 0 {
                assert(t[i - 1] == keep[i]);
            }
        }
    }
}

/// A found index is in bounds and matches.
pub proof fn lemma_find_app_found(keep: Seq<VersionPair>, app: Seq<char>)
    ensures
        find_app_spec(keep, app) matches Some(i) ==> 0 <= i < keep.len() && keep[i].app == app,
    decreases keep.len(),
{
    if keep.len() > 0 && keep[0].app != app {
        lemma_find_app_found(keep.drop_first(), app);
    }
}

/// Find the first kept pair for this application, if any.
fn find_app(keep: &Vec<(String, String)>, app: &String) -> (r: Option<usize>)
    ensures
        match r {
            Some(i) => find_app_spec(pairs_view(keep@), app@) == Some(i as int),
            None => find_app_spec(pairs_view(keep@), app@) is None,
        },
{
    let ghost kv = pairs_view(keep@);
    let mut i: usize = 0;
    while i < keep.len()
        invariant
            i <= keep.len(),
            kv == pairs_view(keep@),
            kv.len() == keep@.len(),
            forall|j: int| 0 <= j < i ==> (#[trigger] kv[j].app) != app@,
        decreases keep.len() - i,
    {
        assert(kv[i as int].app == keep@[i as int].0@);
        if keep[i].0.eq(app) {
            proof {
                lemma_find_app_char(kv, app@, i as int);
            }
            return Some(i);
        }
        i += 1;
    }
    proof {
        lemma_find_app_char(kv, app@, keep@.len() as int);
    }
    None
}

/// The pruning state: the version currently retained for each application,
/// in first-seen order, and the superseded versions, in the order they were
/// ruled out.
pub ghost struct PruneState {
    pub keep: Seq<VersionPair>,
    pub dropped: Seq<VersionPair>,
}

/// Process one parsed pair: a first version of an application is retained; a
/// later one either supersedes the retained version (when it sorts strictly
/// greater) or is itself ruled out.
pub open spec fn prune_step(st: PruneState, p: VersionPair) -> PruneState {
    match find_app_spec(st.keep, p.app) {
        None => PruneState { keep: st.keep.push(p), dropped: st.dropped },
        Some(i) => if lex_lt(st.keep[i].ver, p.ver) {
            PruneState {
                keep: st.keep.update(i, p),
                dropped: st.dropped.push(VersionPair { app: p.app, ver: st.keep[i].ver }),
            }
        } else {
            PruneState { keep: st.keep, dropped: st.dropped.push(p) }
        },
    }
}

/// Fold the parsed pairs, in listing order, into retained and superseded
/// versions.
pub open spec fn prune(pairs: Seq<VersionPair>) -> PruneState
    decreases pairs.len(),
{
    if pairs.len() == 0 {
        PruneState { keep: Seq::empty(), dropped: Seq::empty() }
    } else {
        prune_step(prune(pairs.drop_last()), pairs.last())
    }
}

proof fn lemma_contains_lift(pairs: Seq<VersionPair>, e: VersionPair)
    requires
        pairs.len() > 0,
        pairs.drop_last().contains(e),
    ensures
        pairs.contains(e),
{
    let prefix = pairs.drop_last();
    let k = choose|k: int| 0 <= k < prefix.len() && prefix[k] == e;
    assert(pairs[k] == e);
}

/// What version pruning guarantees, for any listing:
/// the retained and superseded pairs together account for every eligible
/// pair, pair by pair; no application is retained twice; every version seen
/// of an application sorts lexicographically no greater than the one
/// retained for it — by character, not by number, so `"2.0"` beats `"10.0"`.
pub proof fn lemma_prune_properties(pairs: Seq<VersionPair>)
    ensures
        prune(pairs).keep.len() + prune(pairs).dropped.len() == pairs.len(),
        forall|i1: int, i2: int|
            0 <= i1 < i2 < prune(pairs).keep.len() ==> (#[trigger] prune(pairs).keep[i1]).app != (
            #[trigger] prune(pairs).keep[i2]).app,
        forall|i: int|
            0 <= i < prune(pairs).keep.len() ==> pairs.contains(#[trigger] prune(pairs).keep[i]),
        forall|d: int|
            0 <= d < prune(pairs).dropped.len() ==> pairs.contains(
                #[trigger] prune(pairs).dropped[d],
            ),
        forall|j: int|
            0 <= j < pairs.len() ==> exists|i: int|
                0 <= i < prune(pairs).keep.len() && (#[trigger] prune(pairs).keep[i]).app == (
                #[trigger] pairs[j]).app && lex_le(pairs[j].ver, prune(pairs).keep[i].ver),
    decreases pairs.len(),
{
    if pairs.len() > 0 {
        let prefix = pairs.drop_last();
        let p = pairs.last();
        let st0 = prune(prefix);
        let st = prune(pairs);
        lemma_prune_properties(prefix);
        assert forall|i: int| 0 <= i < st0.keep.len() implies pairs.contains(
            #[trigger] st0.keep[i],
        ) by {
            lemma_contains_lift(pairs, st0.keep[i]);
        }
        assert forall|d: int| 0 <= d < st0.dropped.len() implies pairs.contains(
            #[trigger] st0.dropped[d],
        ) by {
            lemma_contains_lift(pairs, st0.dropped[d]);
        }
        assert(pairs.contains(p)) by {
            assert(pairs[pairs.len() - 1] == p);
        }
        match find_app_spec(st0.keep, p.app) {
            None => {
                lemma_find_app_none(st0.keep, p.app);
                assert(st.keep == st0.keep.push(p));
                assert(st.keep[st.keep.len() - 1] == p);
                assert forall|j: int| 0 <= j < pairs.len() implies exists|i: int|
                    0 <= i < st.keep.len() && (#[trigger] st.keep[i]).app == (
                    #[trigger] pairs[j]).app && lex_le(pairs[j].ver, st.keep[i].ver) by {
                    if j < pairs.len() - 1 {
                        assert(pairs[j] == prefix[j]);
                        let w = choose|i: int|
                            0 <= i < st0.keep.len() && (#[trigger] st0.keep[i]).app
                                == prefix[j].app && lex_le(prefix[j].ver, st0.keep[i].ver);
                        assert(st.keep[w] == st0.keep[w]);
                    } else {
                        assert(st.keep[st.keep.len() - 1].app == p.app);
                        assert(lex_le(p.ver, p.ver));
                    }
                }
            },
            Some(i0) => {
                lemma_find_app_found(st0.keep, p.app);
                if lex_lt(st0.keep[i0].ver, p.ver) {
                    assert(st.keep == st0.keep.update(i0, p));
                    assert(st.dropped == st0.dropped.push(
                        VersionPair { app: p.app, ver: st0.keep[i0].ver },
                    ));
                    assert((VersionPair { app: p.app, ver: st0.keep[i0].ver }) == st0.keep[i0]);
                    assert(st.dropped[st.dropped.len() - 1] == st0.keep[i0]);
                    assert forall|j: int| 0 <= j < pairs.len() implies exists|i: int|
                        0 <= i < st.keep.len() && (#[trigger] st.keep[i]).app == (
                        #[trigger] pairs[j]).app && lex_le(pairs[j].ver, st.keep[i].ver) by {
                        if j < pairs.len() - 1 {
                            assert(pairs[j] == prefix[j]);
                            let w = choose|i: int|
                                0 <= i < st0.keep.len() && (#[trigger] st0.keep[i]).app
                                    == prefix[j].app && lex_le(prefix[j].ver, st0.keep[i].ver);
                            if w == i0 {
                                crate::strutil::lemma_lex_le_trans(
                                    prefix[j].ver,
                                    st0.keep[i0].ver,
                                    p.ver,
                                );
                                assert(st.keep[i0].app == pairs[j].app && lex_le(
                                    pairs[j].ver,
                                    st.keep[i0].ver,
                                ));
                            } else {
                                assert(st.keep[w] == st0.keep[w]);
                            }
                        } else {
                            assert(st.keep[i0].app == p.app);
                            assert(lex_le(p.ver, p.ver));
                        }
                    }
                } else {
                    assert(st.keep == st0.keep);
                    assert(st.dropped == st0.dropped.push(p));
                    crate::strutil::lemma_lex_trichotomy(p.ver, st0.keep[i0].ver);
                    assert forall|j: int| 0 <= j < pairs.len() implies exists|i: int|
                        0 <= i < st.keep.len() && (#[trigger] st.keep[i]).app == (
                        #[trigger] pairs[j]).app && lex_le(pairs[j].ver, st.keep[i].ver) by {
                        if j < pairs.len() - 1 {
                            assert(pairs[j] == prefix[j]);
                        } else {
                            assert(st.keep[i0].app == p.app && lex_le(p.ver, st.keep[i0].ver));
                        }
                    }
                }
            },
        }
    }
}

/// The on-disk path of a version directory under the root.
pub open spec fn version_dir_path(root: Seq<char>, p: VersionPair) -> Seq<char> {
    root + "/"@ + p.app + p.ver
}

/// The candidate entry for a superseded version directory.
pub open spec fn old_version_view(root: Seq<char>, p: VersionPair) -> EntryView {
    EntryView {
        path: version_dir_path(root, p),
        description: p.app + " 的旧版本 "@ + p.ver,
        score: 80,
        size: None,
        selected: false,
    }
}

/// On a caches root, each retained version directory yields three
/// rebuildable cache candidates: two plugin cache paths and the IDE's
/// generic cache directory.
pub open spec fn kept_cache_seq(root: Seq<char>, keep: Seq<VersionPair>) -> Seq<EntryView>
    decreases keep.len(),
{
    if keep.len() == 0 {
        Seq::empty()
    } else {
        kept_cache_seq(root, keep.drop_last()) + kept_cache_triple(root, keep.last())
    }
}

/// The three cache candidates of one retained version directory.
pub open spec fn kept_cache_triple(root: Seq<char>, p: VersionPair) -> Seq<EntryView> {
    seq![
        EntryView {
            path: version_dir_path(root, p) + "/intellij-rust/crates-local-index-cargo-home"@,
            description: p.app + " 的 Rust 插件缓存"@,
            score: 80,
            size: None,
            selected: false,
        },
        EntryView {
            path: version_dir_path(root, p) + "/intellij-rust/macros"@,
            description: p.app + " 的 Rust 插件缓存"@,
            score: 80,
            size: None,
            selected: false,
        },
        EntryView {
            path: version_dir_path(root, p) + "/caches"@,
            description: p.app + " 的 IDE 缓存"@,
            score: 80,
            size: None,
            selected: false,
        },
    ]
}

/// The candidate entries the whole policy produces for one root.
pub open spec fn jetbrains_spec(root: Seq<char>, names: Seq<String>) -> Seq<EntryView> {
    let st = prune(eligible_pairs(names));
    st.dropped.map_values(|p: VersionPair| old_version_view(root, p)) + if has_substring(
        root,
        "Caches"@,
    ) {
        kept_cache_seq(root, st.keep)
    } else {
        Seq::empty()
    }
}

/// Build `root/<app><ver>`.
fn version_dir_path_exec(root: &String, app: &String, ver: &String) -> (r: String)
    ensures
        r@ == root@ + "/"@ + app@ + ver@,
{
    let mut p = root.clone();
    p.append("/");
    p.append(app.as_str());
    p.append(ver.as_str());
    p
}

/// Build the candidate entry for a superseded version directory.
fn old_version_entry(root: &String, app: &String, ver: &String) -> (r: CleanEntry)
    ensures
        r@ == old_version_view(root@, VersionPair { app: app@, ver: ver@ }),
{
    let path = version_dir_path_exec(root, app, ver);
    let mut d = app.clone();
    d.append(" 的旧版本 ");
    d.append(ver.as_str());
    CleanEntry::new(path, d, 80)
}

/// Derive the policy's candidate entries from a root directory and the names
/// of its child directories: every superseded version directory, and — on a
/// caches root — three rebuildable cache sub-paths of each retained one.
pub fn jetbrains_candidates(root: &String, names: &Vec<String>) -> (r: Vec<CleanEntry>)
    ensures
        entry_views(r@) == jetbrains_spec(root@, names@),
{
    let mut dirs: Vec<(String, String)> = Vec::new();
    let n = names.len();
    let mut i: usize = 0;
    while i < n
        invariant
            i <= n,
            n == names@.len(),
            pairs_view(dirs@) == eligible_pairs(names@.take(i as int)),
        decreases n - i,
    {
        proof {
            assert(names@.take(i + 1).drop_last() =~= names@.take(i as int));
        }
        let (app, ver) = split_app_version(&names[i]);
        if !ver.as_str().is_empty() && contains_char(&ver, '.') {
            dirs.push((app, ver));
            proof {
                assert(pairs_view(dirs@) =~= eligible_pairs(names@.take(i + 1)));
            }
        } else {
            proof {
                assert(eligible_pairs(names@.take(i + 1)) =~= eligible_pairs(
                    names@.take(i as int),
                ));
            }
        }
        i += 1;
    }
    proof {
        assert(names@.take(n as int) =~= names@);
    }
    let ghost all_pairs = pairs_view(dirs@);
    let mut keep: Vec<(String, String)> = Vec::new();
    let mut out: Vec<CleanEntry> = Vec::new();
    let m = dirs.len();
    let mut i: usize = 0;
    while i < m
        invariant
            i <= m,
            m == dirs@.len(),
            all_pairs == pairs_view(dirs@),
            all_pairs.len() == dirs@.len(),
            pairs_view(keep@) == prune(all_pairs.take(i as int)).keep,
            entry_views(out@) == prune(all_pairs.take(i as int)).dropped.map_values(
                |p: VersionPair| old_version_view(root@, p),
            ),
        decreases m - i,
    {
        let ghost st = prune(all_pairs.take(i as int));
        proof {
            assert(all_pairs.take(i + 1).drop_last() =~= all_pairs.take(i as int));
            assert(all_pairs.take(i + 1).last() == all_pairs[i as int]);
            assert(all_pairs[i as int] == (VersionPair { app: dirs@[i as int].0@, ver: dirs@[i as int].1@ }));
        }
        match find_app(&keep, &dirs[i].0) {
            None => {
                keep.push((dirs[i].0.clone(), dirs[i].1.clone()));
                proof {
                    assert(pairs_view(keep@) =~= st.keep.push(all_pairs[i as int]));
                    assert(prune(all_pairs.take(i + 1)).dropped =~= st.dropped);
                }
            },
            Some(idx) => {
                proof {
                    lemma_find_app_found(st.keep, all_pairs[i as int].app);
                }
                if str_lt(&keep[idx].1, &dirs[i].1) {
                    let ghost oldout = out@;
                    out.push(old_version_entry(root, &dirs[i].0, &keep[idx].1));
                    keep.set(idx, (dirs[i].0.clone(), dirs[i].1.clone()));
                    proof {
                        lemma_entry_views_push(
                            oldout,
                            out@.last(),
                        );
                        assert(pairs_view(keep@) =~= st.keep.update(
                            idx as int,
                            all_pairs[i as int],
                        ));
                        assert(entry_views(out@) =~= prune(all_pairs.take(i + 1)).dropped.map_values(
                            |p: VersionPair| old_version_view(root@, p),
                        ));
                    }
                } else {
                    let ghost oldout = out@;
                    out.push(old_version_entry(root, &dirs[i].0, &dirs[i].1));
                    proof {
                        lemma_entry_views_push(oldout, out@.last());
                        assert(entry_views(out@) =~= prune(all_pairs.take(i + 1)).dropped.map_values(
                            |p: VersionPair| old_version_view(root@, p),
                        ));
                    }
                }
            },
        }
        i += 1;
    }
    proof {
        assert(all_pairs.take(m as int) =~= all_pairs);
    }
    let ghost stf = prune(all_pairs);
    let ghost dropped_views = stf.dropped.map_values(|p: VersionPair| old_version_view(root@, p));
    if contains_substr(root, "Caches") {
        let kn = keep.len();
        let mut j: usize = 0;
        while j < kn
            invariant
                j <= kn,
                kn == keep@.len(),
                pairs_view(keep@) == stf.keep,
                entry_views(out@) == dropped_views + kept_cache_seq(root@, stf.keep.take(j as int)),
            decreases kn - j,
        {
            proof {
                assert(stf.keep.take(j + 1).drop_last() =~= stf.keep.take(j as int));
                assert(stf.keep.take(j + 1).last() == stf.keep[j as int]);
                assert(stf.keep[j as int] == (VersionPair { app: keep@[j as int].0@, ver: keep@[j as int].1@ }));
            }
            let base = version_dir_path_exec(root, &keep[j].0, &keep[j].1);
            let ghost out0 = out@;
            let mut p0 = base.clone();
            p0.append("/intellij-rust/crates-local-index-cargo-home");
            let mut d0 = keep[j].0.clone();
            d0.append(" 的 Rust 插件缓存");
            out.push(CleanEntry::new(p0, d0, 80));
            proof {
                lemma_entry_views_push(out0, out@.last());
            }
            let ghost out1 = out@;
            let mut p1 = base.clone();
            p1.append("/intellij-rust/macros");
            let mut d1 = keep[j].0.clone();
            d1.append(" 的 Rust 插件缓存");
            out.push(CleanEntry::new(p1, d1, 80));
            proof {
                lemma_entry_views_push(out1, out@.last());
            }
            let ghost out2 = out@;
            let mut p2 = base;
            p2.append("/caches");
            let mut d2 = keep[j].0.clone();
            d2.append(" 的 IDE 缓存");
            out.push(CleanEntry::new(p2, d2, 80));
            proof {
                lemma_entry_views_push(out2, out@.last());
                assert(entry_views(out@) =~= dropped_views + kept_cache_seq(
                    root@,
                    stf.keep.take(j + 1),
                ));
            }
            j += 1;
        }
        proof {
            assert(stf.keep.take(kn as int) =~= stf.keep);
        }
    } else {
        proof {
            assert(entry_views(out@) =~= dropped_views + Seq::<EntryView>::empty());
        }
    }
    out
}

} // verus!
