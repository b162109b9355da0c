use vstd::prelude::*;
use crate::loader::{
    allowed, external_path, external_path_spec, host_destination, is_allowed_file, mirror_source,
    SaveLoaderState, BASE_SAVES_PATH, HOST_SCHEME,
};
use crate::text::{chars_of, push_all, string_from_chars};

verus! {

/// One file copy for the caller to perform: the file at `from` is copied
/// over the file at `to`.
#[derive(Debug, PartialEq, Eq)]
pub struct CopyOp {
    pub from: String,
    pub to: String,
}

/// `root`, a `'/'`, then `name`.
fn join_path(root: &str, name: &str) -> (r: String)
    ensures
        r@ == root@ + seq!['/'] + name@,
{
    let mut out = chars_of(root);
    out.push('/');
    let tail = chars_of(name);
    push_all(&mut out, &tail);
    string_from_chars(&out)
}

/// Copy-in before a host load of `file_path`: when the path takes part in
/// redirection and its external counterpart exists (`external_exists`), copy
/// that external file over the host's file; otherwise nothing, and the host
/// loads what its own storage holds.
pub fn load_copy(state: &SaveLoaderState, file_path: &str, external_exists: bool) -> (r: Option<CopyOp>)
    ensures
        r is Some <==> (allowed(state@, file_path@) && external_exists),
        r matches Some(op) ==> op.from@ == external_path_spec(file_path@) && op.to@ == file_path@,
{
    if !is_allowed_file(state, file_path) || !external_exists {
        return None;
    }
    let from = external_path(file_path);
    let to = file_path.to_owned();
    Some(CopyOp { from, to })
}

/// Copy-out after a host save of `file_path`: the external path that should
/// receive the bytes just saved, when the path takes part in redirection.
pub fn save_mirror_target(state: &SaveLoaderState, file_path: &str) -> (r: Option<String>)
    ensures
        r is Some <==> allowed(state@, file_path@),
        r matches Some(p) ==> p@ == external_path_spec(file_path@),
{
    if !is_allowed_file(state, file_path) {
        return None;
    }
    Some(external_path(file_path))
}

/// The copies to consider once the host has mounted its save data: for each
/// allow-list entry, in order, from its external file to the host's file of
/// the same name. None until the state is ready.
pub fn mount_copies(state: &SaveLoaderState) -> (r: Vec<CopyOp>)
    ensures
        !state@.ready ==> r@.len() == 0,
        state@.ready ==> r@.len() == state@.entries.len(),
        state@.ready ==> forall|i: int| 0 <= i < r@.len() ==> {
            &&& (#[trigger] r@[i]).from@ == mirror_source(state@.entries[i])
            &&& r@[i].to@ == host_destination(state@.entries[i])
        },
{
    let mut out: Vec<CopyOp> = Vec::new();
    if !state.is_ready() {
        return out;
    }
    let files = state.allowed_files();
    let mut i: usize = 0;
    while i < files.len()
        invariant
            i <= files.len(),
            state@.ready,
            crate::allow_list::string_views(files@) == state@.entries,
            out@.len() == i,
            forall|k: int| 0 <= k < i ==> {
                &&& (#[trigger] out@[k]).from@ == mirror_source(state@.entries[k])
                &&& out@[k].to@ == host_destination(state@.entries[k])
            },
        decreases files.len() - i,
    {
        let name = files[i].as_str();
        let from = join_path(BASE_SAVES_PATH, name);
        let to = join_path(HOST_SCHEME, name);
        assert(state@.entries[i as int] == files@[i as int]@);
        out.push(CopyOp { from, to });
        i = i + 1;
    }
    out
}

/// The (source, destination) paths of each copy of `ops`.
pub open spec fn op_views(ops: Seq<CopyOp>) -> Seq<(Seq<char>, Seq<char>)> {
    ops.map_values(|o: CopyOp| (o.from@, o.to@))
}

/// The items `s[i]` for which `present[i]` holds, in order.
pub open spec fn kept<A>(s: Seq<A>, present: Seq<bool>) -> Seq<A>
    decreases s.len(),
{
    if s.len() == 0 {
        s
    } else {
        let prev = kept(s.drop_last(), present);
        if present[s.len() - 1] {
            prev.push(s.last())
        } else {
            prev
        }
    }
}

/// The copies of `ops` whose source exists (`present[i]` for `ops[i]`), in
/// order; a copy whose source is missing is skipped.
pub fn present_copies(ops: &Vec<CopyOp>, present: &Vec<bool>) -> (r: Vec<CopyOp>)
    requires
        ops.len() == present.len(),
    ensures
        op_views(r@) == kept(op_views(ops@), present@),
{
    let mut out: Vec<CopyOp> = Vec::new();
    let mut i: usize = 0;
    assert(op_views(ops@).subrange(0, 0) =~= Seq::<(Seq<char>, Seq<char>)>::empty());
    assert(op_views(out@) =~= Seq::<(Seq<char>, Seq<char>)>::empty());
    while i < ops.len()
        invariant
            i <= ops.len(),
            ops.len() == present.len(),
            op_views(out@) == kept(op_views(ops@).subrange(0, i as int), present@),
        decreases ops.len() - i,
    {
        let ghost part = op_views(ops@).subrange(0, i as int + 1);
        assert(part.drop_last() =~= op_views(ops@).subrange(0, i as int));
        let ghost before = out@;
        if present[i] {
            let op = CopyOp { from: ops[i].from.clone(), to: ops[i].to.clone() };
            out.push(op);
            assert(op_views(out@) =~= op_views(before).push(part.last()));
        }
        i = i + 1;
    }
    assert(op_views(ops@).subrange(0, i as int) =~= op_views(ops@));
    out
}

} // verus!
