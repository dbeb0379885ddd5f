//! Application settings and the list of recently opened workspaces. Reading
//! and writing them is the caller's; this module holds the rules.

use vstd::prelude::*;

use crate::cache::now_secs;

verus! {

/// How many recent workspaces are kept.
pub const MAX_RECENT: usize = 10;

/// The final component of a path, as `std::path::Path::file_name` gives it.
pub uninterp spec fn file_name_of(path: Seq<char>) -> Option<Seq<char>>;

/// Relies on `std::path::Path::file_name`: the final component of the path,
/// none where the path ends in `..` or has no component.
#[verifier::external_body]
fn file_name(path: &str) -> (r: Option<String>)
    ensures
        match r {
            Some(n) => file_name_of(path@) == Some(n@),
            None => file_name_of(path@) is None,
        },
{
    std::path::Path::new(path).file_name().and_then(|n| n.to_str()).map(|n| n.to_string())
}

/// A workspace that was opened, and when (seconds since the Unix epoch).
pub struct RecentWorkspace {
    pub path: String,
    /// The last component of the path.
    pub name: String,
    pub last_opened: i64,
}

/// The user's settings.
pub struct AppSettings {
    pub last_workspace: Option<String>,
    pub editor_font_size: u32,
    pub theme: String,
}

/// The editor font size used where none is stored.
pub fn default_font_size() -> (r: u32)
    ensures
        r == 13,
{
    13
}

/// The theme used where none is stored.
pub fn default_theme() -> (r: String)
    ensures
        r@ == "dark"@,
{
    String::from_str("dark")
}

impl Default for AppSettings {
    fn default() -> (r: AppSettings)
        ensures
            r.last_workspace is None,
            r.editor_font_size == 0,
            r.theme@.len() == 0,
    {
        AppSettings { last_workspace: None, editor_font_size: 0, theme: String::new() }
    }
}

/// The workspaces of `s` whose path is not `p`, in order.
pub open spec fn without_path(s: Seq<RecentWorkspace>, p: Seq<char>) -> Seq<RecentWorkspace>
    decreases s.len(),
{
    if s.len() == 0 {
        seq![]
    } else if s.last().path@ == p {
        without_path(s.drop_last(), p)
    } else {
        without_path(s.drop_last(), p).push(s.last())
    }
}

/// What the application stores: recent workspaces, most recent first, and settings.
pub struct AppData {
    pub recent_workspaces: Vec<RecentWorkspace>,
    pub settings: AppSettings,
}

impl Default for AppData {
    fn default() -> (r: AppData)
        ensures
            r.recent_workspaces@.len() == 0,
            r.settings.last_workspace is None,
    {
        AppData { recent_workspaces: Vec::new(), settings: AppSettings::default() }
    }
}

/// Removes from `list` every workspace whose path is `path`.
fn drop_path(list: &mut Vec<RecentWorkspace>, path: &String)
    ensures
        final(list)@ == without_path(old(list)@, path@),
{
    let ghost s = list@;
    let mut rest: Vec<RecentWorkspace> = Vec::new();
    std::mem::swap(&mut rest, list);
    let mut i: usize = 0;
    assert(s.take(0) =~= Seq::<RecentWorkspace>::empty());
    assert(rest@ == s && s.skip(0) =~= s);
    assert(s.len() == rest.len());
    while rest.len() > 0
        invariant
            i + rest.len() == s.len(),
            s.len() <= usize::MAX,
            rest@ == s.skip(i as int),
            list@ == without_path(s.take(i as int), path@),
        decreases rest.len(),
    {
        let ghost before = rest@;
        let w = rest.remove(0);
        assert(rest@ =~= s.skip(i + 1));
        assert(w == s[i as int]);
        assert(s.take(i + 1).drop_last() =~= s.take(i as int));
        if w.path != *path {
            list.push(w);
        }
        i = i + 1;
    }
    assert(s.take(i as int) =~= s);
}

/// Whether no two workspaces share a path.
pub open spec fn paths_distinct(s: Seq<RecentWorkspace>) -> bool {
    forall|i: int, j: int| 0 <= i < j < s.len() ==> s[i].path@ != s[j].path@
}

/// The name recorded for a workspace at `path`: its final component, else `未知` ("unknown").
pub open spec fn workspace_name(path: Seq<char>) -> Seq<char> {
    match file_name_of(path) {
        Some(n) => n,
        None => "未知"@,
    }
}

/// How many records there are after `path` is added to `old`.
pub open spec fn count_after_add(old: Seq<RecentWorkspace>, path: Seq<char>) -> int {
    let n = without_path(old, path).len() as int + 1;
    if n > MAX_RECENT {
        MAX_RECENT as int
    } else {
        n
    }
}

/// What `new` holds after `path` was added to `old`: a record of `path`
/// first, then the most recent other records, in order, up to the bound.
pub open spec fn added_to(old: Seq<RecentWorkspace>, path: Seq<char>, new: Seq<RecentWorkspace>) -> bool {
    &&& new.len() == count_after_add(old, path)
    &&& new[0].path@ == path
    &&& new[0].name@ == workspace_name(path)
    &&& new.drop_first() == without_path(old, path).take(new.len() - 1)
    &&& (paths_distinct(old) ==> paths_distinct(new))
}

/// The records kept by [`without_path`] all have another path, each stands
/// in the original list, and distinct paths stay distinct.
pub proof fn lemma_without_path(s: Seq<RecentWorkspace>, p: Seq<char>)
    ensures
        forall|i: int| 0 <= i < without_path(s, p).len() ==> (#[trigger] without_path(s, p)[i]).path@ != p,
        without_path(s, p).len() <= s.len(),
        paths_distinct(s) ==> paths_distinct(without_path(s, p)),
        forall|i: int| 0 <= i < without_path(s, p).len() ==> exists|k: int| 0 <= k < s.len() && s[k] == #[trigger] without_path(s, p)[i],
    decreases s.len(),
{
    if s.len() > 0 {
        let t = s.drop_last();
        lemma_without_path(t, p);
        let w = without_path(t, p);
        assert forall|i: int| 0 <= i < w.len() implies exists|k: int| 0 <= k < s.len() && s[k] == #[trigger] w[i] by {
            let k = choose|k: int| 0 <= k < t.len() && t[k] == w[i];
            assert(s[k] == w[i]);
        }
        if s.last().path@ != p {
            let r = w.push(s.last());
            assert forall|i: int| 0 <= i < r.len() implies exists|k: int| 0 <= k < s.len() && s[k] == #[trigger] r[i] by {
                if i < w.len() {
                    assert(r[i] == w[i]);
                } else {
                    assert(s[s.len() - 1] == r[i]);
                }
            }
            if paths_distinct(s) {
                assert(paths_distinct(t));
                assert forall|i: int, j: int| 0 <= i < j < r.len() implies r[i].path@ != r[j].path@ by {
                    if j == r.len() - 1 {
                        let k = choose|k: int| 0 <= k < s.len() && s[k] == #[trigger] w[i];
                        assert(s[k] == w[i]);
                        assert(k < t.len() || s[k] == s.last());
                        if k < t.len() {
                            assert(s[k].path@ != s[s.len() - 1].path@);
                        }
                    } else {
                        assert(r[i] == w[i] && r[j] == w[j]);
                    }
                }
            }
        }
    }
}

impl AppData {
    /// Records that `path` was opened at second `now`: any earlier record of
    /// it is dropped, a new record goes first, only the ten most recent are
    /// kept, and `path` becomes the last workspace.
    pub fn add_recent_workspace_at(&mut self, path: &str, now: i64)
        ensures
            added_to(old(self).recent_workspaces@, path@, final(self).recent_workspaces@),
            final(self).recent_workspaces@[0].last_opened == now,
            final(self).settings.last_workspace matches Some(w) && w@ == path@,
            final(self).settings.editor_font_size == old(self).settings.editor_font_size,
            final(self).settings.theme == old(self).settings.theme,
    {
        let name = match file_name(path) {
            Some(n) => n,
            None => String::from_str("未知"),
        };
        let p = path.to_owned();
        proof {
            lemma_without_path(old(self).recent_workspaces@, path@);
        }
        drop_path(&mut self.recent_workspaces, &p);
        let ghost kept = self.recent_workspaces@;
        self.recent_workspaces.insert(0, RecentWorkspace { path: path.to_owned(), name, last_opened: now });
        if self.recent_workspaces.len() > MAX_RECENT {
            self.recent_workspaces.truncate(MAX_RECENT);
        }
        let ghost fin = self.recent_workspaces@;
        assert(fin.drop_first() =~= kept.take(fin.len() - 1));
        assert(paths_distinct(old(self).recent_workspaces@) ==> paths_distinct(fin)) by {
            if paths_distinct(old(self).recent_workspaces@) {
                assert forall|i: int, j: int| 0 <= i < j < fin.len() implies fin[i].path@ != fin[j].path@ by {
                    assert(fin[j] == kept[j - 1]);
                    if i > 0 {
                        assert(fin[i] == kept[i - 1]);
                    }
                }
            }
        }
        self.settings.last_workspace = Some(p);
    }

    /// Records that `path` was opened now, as [`AppData::add_recent_workspace_at`] does.
    pub fn add_recent_workspace(&mut self, path: &str)
        ensures
            added_to(old(self).recent_workspaces@, path@, final(self).recent_workspaces@),
            final(self).settings.last_workspace matches Some(w) && w@ == path@,
            final(self).settings.editor_font_size == old(self).settings.editor_font_size,
            final(self).settings.theme == old(self).settings.theme,
    {
        let secs = now_secs();
        let now: i64 = if secs > i64::MAX as u64 {
            i64::MAX
        } else {
            secs as i64
        };
        self.add_recent_workspace_at(path, now);
    }

    /// Drops every record of `path`.
    pub fn remove_recent_workspace(&mut self, path: &str)
        ensures
            final(self).recent_workspaces@ == without_path(old(self).recent_workspaces@, path@),
    {
        let p = path.to_owned();
        drop_path(&mut self.recent_workspaces, &p);
    }

    /// Drops every record.
    pub fn clear_recent_workspaces(&mut self)
        ensures
            final(self).recent_workspaces@.len() == 0,
    {
        self.recent_workspaces.clear();
    }
}

} // verus!
