use vstd::prelude::*;
use crate::allow_list::{parse_allow_list, parse_allow_list_spec, string_views};
use crate::text::{chars_of, contains_fragment, is_substring, matches_at, push_all, string_from_chars};

verus! {

/// Directory on the external storage that mirrors the host's save files.
pub const BASE_SAVES_PATH: &'static str = "sd:/xc3-saves";

/// Where the allow-list is kept on the external storage.
pub const ALLOW_LIST_PATH: &'static str = "sd:/xc3-saves/allow-list.txt";

/// The prefix by which the host names its own save storage.
pub const HOST_SCHEME: &'static str = "save:";

/// The allow-list written when none exists yet: it documents the format and
/// lists the usual save files, all commented out, so it holds no entry.
pub const DEFAULT_ALLOW_LIST: &'static str = r#"
# This allow list is used to determine which save files will be loaded from the sd card
# as well as which save files will be mirrored to the sd card when the game saves.
# Remove preceding # to allow a file to be copied from sd to save
#
# Keep the minimum number of files (ideally just the ones you want to modify) in this list,
# ideally around 3 or 4. As game will crash when trying to copy too many saves from the
# sd card to the save data in a row.

# bf3system00.sav # system settings
# bf3game00a.sav  # base game auto save slot
# bf3game00a.tmb  # base game auto save slot thumbnail
# bf3game01.sav   # base game quick save slot
# bf3game01.tmb   # base game quick save slot thumbnail
# bf3game02.sav   # base game manual save slot A
# bf3game02.tmb   # base game manual save slot A thumbnail
# bf3game03.sav   # base game manual save slot B
# bf3game03.tmb   # base game manual save slot B thumbnail
# bf3game04.sav   # base game manual save slot C
# bf3game04.tmb   # base game manual save slot C thumbnail
# bf3dlc00a.sav   # future redeemed DLC auto save slot
# bf3dlc00a.tmb   # future redeemed DLC auto save slot thumbnail
# bf3dlc01.sav    # future redeemed DLC quick save slot
# bf3dlc01.tmb    # future redeemed DLC quick save slot thumbnail
# bf3dlc02.sav    # future redeemed DLC manual save slot A
# bf3dlc02.tmb    # future redeemed DLC manual save slot A thumbnail
# bf3dlc03.sav    # future redeemed DLC manual save slot B
# bf3dlc03.tmb    # future redeemed DLC manual save slot B thumbnail
# bf3dlc04.sav    # future redeemed DLC manual save slot C
# bf3dlc04.tmb    # future redeemed DLC manual save slot C thumbnail
"#;

/// What the process-wide state looks like to contracts.
pub ghost struct LoaderView {
    /// External storage is mounted and its root directory opened.
    pub ready: bool,
    /// The allow-list entries, in the order they were loaded.
    pub entries: Seq<Seq<char>>,
}

/// Readiness and the allow-list, built once at start-up and read by every
/// interception point.
pub struct SaveLoaderState {
    allowed_files: Vec<String>,
    ready: bool,
}

impl View for SaveLoaderState {
    type V = LoaderView;

    closed spec fn view(&self) -> LoaderView {
        LoaderView { ready: self.ready, entries: string_views(self.allowed_files@) }
    }
}

/// Whether the state, as seen in `v`, lets `path` take part in redirection:
/// ready, and some entry occurs in `path`.
pub open spec fn allowed(v: LoaderView, path: Seq<char>) -> bool {
    v.ready && exists|i: int| 0 <= i < v.entries.len() && is_substring(#[trigger] v.entries[i], path)
}

/// The external counterpart of a host save path: a leading host scheme
/// prefix is replaced by the external root; a path without that prefix is
/// kept as it is.
pub open spec fn external_path_spec(path: Seq<char>) -> Seq<char> {
    if HOST_SCHEME@.len() <= path.len() && path.subrange(0, HOST_SCHEME@.len() as int) == HOST_SCHEME@ {
        BASE_SAVES_PATH@ + path.skip(HOST_SCHEME@.len() as int)
    } else {
        path
    }
}

/// External file that mirrors allow-list entry `e`.
pub open spec fn mirror_source(e: Seq<char>) -> Seq<char> {
    BASE_SAVES_PATH@ + seq!['/'] + e
}

/// Host save file named by allow-list entry `e`.
pub open spec fn host_destination(e: Seq<char>) -> Seq<char> {
    HOST_SCHEME@ + seq!['/'] + e
}

impl SaveLoaderState {
    /// A state that is not ready and has an empty allow-list.
    pub fn new() -> (r: SaveLoaderState)
        ensures
            r@.ready == false,
            r@.entries == Seq::<Seq<char>>::empty(),
    {
        let r = SaveLoaderState { allowed_files: Vec::new(), ready: false };
        assert(string_views(r.allowed_files@) =~= Seq::<Seq<char>>::empty());
        r
    }

    /// Whether external storage has been found usable.
    pub fn is_ready(&self) -> (r: bool)
        ensures
            r == self@.ready,
    {
        self.ready
    }

    /// The allow-list entries.
    pub fn allowed_files(&self) -> (r: &Vec<String>)
        ensures
            string_views(r@) == self@.entries,
    {
        &self.allowed_files
    }

    /// Sets whether external storage is usable; the allow-list is kept.
    pub fn set_ready(&mut self, ready: bool)
        ensures
            final(self)@.ready == ready,
            final(self)@.entries == old(self)@.entries,
    {
        self.ready = ready;
    }

    /// Adds the entries of the allow-list text `text`, in order, once the
    /// state is ready; before that the allow-list is left as it is.
    pub fn load_allow_list(&mut self, text: &str)
        ensures
            final(self)@.ready == old(self)@.ready,
            final(self)@.entries == if old(self)@.ready {
                old(self)@.entries + parse_allow_list_spec(text@)
            } else {
                old(self)@.entries
            },
    {
        if !self.ready {
            return;
        }
        let parsed = parse_allow_list(text);
        let ghost start = string_views(self.allowed_files@);
        let mut i: usize = 0;
        while i < parsed.len()
            invariant
                i <= parsed.len(),
                self.ready,
                string_views(self.allowed_files@) == start + string_views(parsed@).subrange(0, i as int),
            decreases parsed.len() - i,
        {
            let ghost before = self.allowed_files@;
            self.allowed_files.push(parsed[i].clone());
            i = i + 1;
            assert(string_views(self.allowed_files@) =~= string_views(before).push(parsed@[i - 1]@));
            assert(string_views(parsed@).subrange(0, i as int) =~= string_views(parsed@).subrange(0, i - 1).push(parsed@[i - 1]@));
        }
        assert(string_views(parsed@).subrange(0, i as int) =~= string_views(parsed@));
    }
}

/// Whether `file_path` takes part in redirection: false until the state is
/// ready, then true exactly when some allow-list entry occurs in it.
pub fn is_allowed_file(state: &SaveLoaderState, file_path: &str) -> (r: bool)
    ensures
        r == allowed(state@, file_path@),
{
    if !state.ready {
        return false;
    }
    let path = chars_of(file_path);
    let mut i: usize = 0;
    while i < state.allowed_files.len()
        invariant
            i <= state.allowed_files.len(),
            state.ready,
            path@ == file_path@,
            forall|k: int| 0 <= k < i ==> !is_substring(#[trigger] state@.entries[k], path@),
        decreases state.allowed_files.len() - i,
    {
        let entry = chars_of(state.allowed_files[i].as_str());
        assert(entry@ == state@.entries[i as int]);
        if contains_fragment(&path, &entry) {
            assert(is_substring(state@.entries[i as int], file_path@));
            return true;
        }
        i = i + 1;
    }
    false
}

/// Until the state is ready no path takes part in redirection, whatever
/// the allow-list holds: every interception point only runs the host's own
/// operation.
pub proof fn lemma_not_ready_allows_nothing(v: LoaderView, path: Seq<char>)
    requires
        !v.ready,
    ensures
        !allowed(v, path),
{
}

/// Once ready, a path takes part exactly when some entry occurs in it; in
/// particular every path that contains an entry does.
pub proof fn lemma_entry_in_path_allows(v: LoaderView, path: Seq<char>, i: int)
    requires
        v.ready,
        0 <= i < v.entries.len(),
        is_substring(v.entries[i], path),
    ensures
        allowed(v, path),
{
}

/// The external path that mirrors the host save path `file_path`.
pub fn external_path(file_path: &str) -> (r: String)
    ensures
        r@ == external_path_spec(file_path@),
{
    let path = chars_of(file_path);
    let scheme = chars_of(HOST_SCHEME);
    if scheme.len() <= path.len() && matches_at(&path, &scheme, 0) {
        let mut out = chars_of(BASE_SAVES_PATH);
        let mut rest: Vec<char> = Vec::new();
        let mut i: usize = scheme.len();
        while i < path.len()
            invariant
                scheme.len() <= i <= path.len(),
                rest@ == path@.subrange(scheme@.len() as int, i as int),
            decreases path.len() - i,
        {
            rest.push(path[i]);
            i = i + 1;
            assert(rest@ =~= path@.subrange(scheme@.len() as int, i as int));
        }
        assert(rest@ =~= path@.skip(scheme@.len() as int));
        push_all(&mut out, &rest);
        string_from_chars(&out)
    } else {
        string_from_chars(&path)
    }
}

} // verus!
