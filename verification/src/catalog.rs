//! Catalog expansion for Electron-style applications: each application root
//! contributes the same five rebuildable subtrees — four cache directories
//! and a log directory.

use vstd::prelude::*;
use vstd::string::StringExecFns;
use crate::entry::{entry_views, lemma_entry_views_push, CleanEntry, EntryView};

verus! {

/// One derived subtree: the path suffix appended to the application root,
/// and the description suffix appended to the application name.
pub open spec fn electron_view(
    root: Seq<char>,
    app: Seq<char>,
    path_suffix: Seq<char>,
    desc_suffix: Seq<char>,
) -> EntryView {
    EntryView {
        path: root + path_suffix,
        description: app + desc_suffix,
        score: 100,
        size: None,
        selected: false,
    }
}

/// The five candidates an Electron-style application root yields.
pub open spec fn electron_views(root: Seq<char>, app: Seq<char>) -> Seq<EntryView> {
    seq![
        electron_view(root, app, "/Cache"@, " 缓存"@),
        electron_view(root, app, "/Code Cache"@, " 缓存"@),
        electron_view(root, app, "/GPUCache"@, " 缓存"@),
        electron_view(root, app, "/page_cache"@, " 缓存"@),
        electron_view(root, app, "/logs"@, " 日志"@),
    ]
}

fn electron_entry(root: &String, app: &String, path_suffix: &str, desc_suffix: &str) -> (r:
    CleanEntry)
    ensures
        r@ == electron_view(root@, app@, path_suffix@, desc_suffix@),
{
    let mut path = root.clone();
    path.append(path_suffix);
    let mut description = app.clone();
    description.append(desc_suffix);
    CleanEntry::new(path, description, 100)
}

/// Append the five cache and log candidates of one Electron-style
/// application root to the candidate list.
pub fn clean_electron(entries: &mut Vec<CleanEntry>, root: &String, app: &String)
    ensures
        entry_views(final(entries)@) == entry_views(old(entries)@) + electron_views(root@, app@),
{
    let ghost e0 = entries@;
    entries.push(electron_entry(root, app, "/Cache", " 缓存"));
    proof {
        lemma_entry_views_push(e0, entries@.last());
    }
    let ghost e1 = entries@;
    entries.push(electron_entry(root, app, "/Code Cache", " 缓存"));
    proof {
        lemma_entry_views_push(e1, entries@.last());
    }
    let ghost e2 = entries@;
    entries.push(electron_entry(root, app, "/GPUCache", " 缓存"));
    proof {
        lemma_entry_views_push(e2, entries@.last());
    }
    let ghost e3 = entries@;
    entries.push(electron_entry(root, app, "/page_cache", " 缓存"));
    proof {
        lemma_entry_views_push(e3, entries@.last());
    }
    let ghost e4 = entries@;
    entries.push(electron_entry(root, app, "/logs", " 日志"));
    proof {
        lemma_entry_views_push(e4, entries@.last());
        assert(entry_views(entries@) =~= entry_views(old(entries)@) + electron_views(root@, app@));
    }
}

} // verus!
