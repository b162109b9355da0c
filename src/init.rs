use vstd::prelude::*;
use crate::allow_list::parse_allow_list_spec;
use crate::loader::SaveLoaderState;

verus! {

/// Result code of a storage call that succeeded.
pub const RESULT_OK: u32 = 0;

/// Result code of mounting external storage that is already mounted.
pub const RESULT_ALREADY_MOUNTED: u32 = 30722;

/// The steps of start-up. Each step names the storage call to make next;
/// its result code decides the step after it.
#[derive(Debug, Clone, Copy, PartialEq, Eq, Structural)]
pub enum InitStep {
    /// Mount the external storage device.
    MountStorage,
    /// Open the external root directory.
    OpenRoot,
    /// The root could not be opened: create it.
    CreateRoot,
    /// The root was created: open it again.
    ReopenRoot,
    /// External storage is usable.
    Ready,
    /// Start-up failed; the feature stays a passthrough.
    Failed,
}

/// The step that follows `step` when its storage call returned `code`.
pub open spec fn init_transition(step: InitStep, code: u32) -> InitStep {
    match step {
        InitStep::MountStorage => if code == RESULT_OK || code == RESULT_ALREADY_MOUNTED {
            InitStep::OpenRoot
        } else {
            InitStep::Failed
        },
        InitStep::OpenRoot => if code == RESULT_OK {
            InitStep::Ready
        } else {
            InitStep::CreateRoot
        },
        InitStep::CreateRoot => if code == RESULT_OK {
            InitStep::ReopenRoot
        } else {
            InitStep::Failed
        },
        InitStep::ReopenRoot => if code == RESULT_OK {
            InitStep::Ready
        } else {
            InitStep::Failed
        },
        InitStep::Ready => InitStep::Ready,
        InitStep::Failed => InitStep::Failed,
    }
}

/// Whether no storage call is left to make.
pub open spec fn is_final(step: InitStep) -> bool {
    step == InitStep::Ready || step == InitStep::Failed
}

/// Advances start-up by the result `code` of the storage call that `step`
/// named.
pub fn next_init_step(step: InitStep, code: u32) -> (r: InitStep)
    ensures
        r == init_transition(step, code),
{
    match step {
        InitStep::MountStorage => if code == RESULT_OK || code == RESULT_ALREADY_MOUNTED {
            InitStep::OpenRoot
        } else {
            InitStep::Failed
        },
        InitStep::OpenRoot => if code == RESULT_OK {
            InitStep::Ready
        } else {
            InitStep::CreateRoot
        },
        InitStep::CreateRoot => if code == RESULT_OK {
            InitStep::ReopenRoot
        } else {
            InitStep::Failed
        },
        InitStep::ReopenRoot => if code == RESULT_OK {
            InitStep::Ready
        } else {
            InitStep::Failed
        },
        InitStep::Ready => InitStep::Ready,
        InitStep::Failed => InitStep::Failed,
    }
}

/// Runs start-up over the result codes that the storage calls returned, in
/// order, from the first step; returns the step reached.
pub open spec fn run_init(codes: Seq<u32>) -> InitStep
    decreases codes.len(),
{
    if codes.len() == 0 {
        InitStep::MountStorage
    } else {
        init_transition(run_init(codes.drop_last()), codes.last())
    }
}

/// Applies the outcome of start-up to `state`. `allow_list` is the text of
/// the allow-list, or `None` when it could not be written or read. The state
/// becomes ready exactly when start-up reached `Ready` and the text was read;
/// then the text's entries are added. Otherwise the state is not ready and
/// its allow-list is left as it was.
pub fn finish_init(state: &mut SaveLoaderState, step: InitStep, allow_list: Option<&str>)
    ensures
        final(state)@.ready == (step == InitStep::Ready && allow_list is Some),
        final(state)@.entries == match allow_list {
            Some(text) if step == InitStep::Ready => old(state)@.entries + parse_allow_list_spec(text@),
            _ => old(state)@.entries,
        },
{
    match allow_list {
        Some(text) => {
            if step == InitStep::Ready {
                state.set_ready(true);
                state.load_allow_list(text);
            } else {
                state.set_ready(false);
            }
        },
        None => {
            state.set_ready(false);
        },
    }
}

/// Once start-up has stopped, further results change nothing.
pub proof fn lemma_final_steps_stay(step: InitStep, code: u32)
    requires
        is_final(step),
    ensures
        init_transition(step, code) == step,
{
}

/// The mount result `code` lets start-up go on.
pub open spec fn mount_ok(code: u32) -> bool {
    code == RESULT_OK || code == RESULT_ALREADY_MOUNTED
}

/// Each step before the last is reached by exactly one run of results.
proof fn lemma_intermediate_steps(codes: Seq<u32>)
    ensures
        run_init(codes) == InitStep::MountStorage ==> codes.len() == 0,
        run_init(codes) == InitStep::OpenRoot ==> codes.len() == 1 && mount_ok(codes[0]),
        run_init(codes) == InitStep::CreateRoot ==> codes.len() == 2 && mount_ok(codes[0])
            && codes[1] != RESULT_OK,
        run_init(codes) == InitStep::ReopenRoot ==> codes.len() == 3 && mount_ok(codes[0])
            && codes[1] != RESULT_OK && codes[2] == RESULT_OK,
    decreases codes.len(),
{
    if codes.len() > 0 {
        lemma_intermediate_steps(codes.drop_last());
    }
}

/// Start-up is ready only after the mount succeeded (or found the device
/// already mounted) and the root directory opened: at the second call, or
/// after creating it at the third, at the fourth.
pub proof fn lemma_ready_needs_mount_and_root(codes: Seq<u32>)
    requires
        run_init(codes) == InitStep::Ready,
    ensures
        codes.len() >= 2,
        mount_ok(codes[0]),
        codes[1] == RESULT_OK || (codes.len() >= 4 && codes[2] == RESULT_OK && codes[3] == RESULT_OK),
    decreases codes.len(),
{
    let prev = codes.drop_last();
    lemma_intermediate_steps(prev);
    if run_init(prev) == InitStep::Ready {
        lemma_ready_needs_mount_and_root(prev);
    }
}

} // verus!
