//! A fan behind a duty-cycle file, with the mode file beside it that says
//! who is in control of the fan.
//!
//! The actuator itself touches no file. It says which step is due, is told
//! how the step went, and keeps what the mode file held before the actuator
//! took control, so that exactly that can be written back in the end.

use crate::decimal::digits;
use crate::fan::{FanError, FanPower};
use vstd::prelude::*;
use vstd::slice::slice_subrange;
use vstd::string::*;

verus! {

/// Number of bytes of the mode file that are kept for the way back.
pub const MODE_LEN: usize = 4;

/// The content of the mode file that hands control to this program: `1`.
pub const MANUAL_MODE: u8 = 0x31;

/// The path without what stands at its end and names nothing: separators,
/// and components `.` behind a separator.
pub open spec fn trimmed(path: Seq<char>) -> Seq<char>
    decreases path.len(),
{
    if path.len() >= 1 && path.last() == '/' {
        trimmed(path.drop_last())
    } else if path.len() >= 2 && path.last() == '.' && path[path.len() - 2] == '/' {
        trimmed(path.take(path.len() - 2))
    } else {
        path
    }
}

/// Where the last component of a path starts: behind its last separator,
/// or at the start of a path without one.
pub open spec fn name_start(path: Seq<char>) -> nat
    decreases path.len(),
{
    if path.len() == 0 || path.last() == '/' {
        path.len()
    } else {
        name_start(path.drop_last())
    }
}

/// The name of the file or directory that a path leads to: its last
/// component, whatever separators and components `.` follow it. A path
/// that ends in `..`, the root, a lone `.` and the empty path have none.
pub open spec fn file_name(path: Seq<char>) -> Option<Seq<char>> {
    let clear = trimmed(path);
    let name = clear.skip(name_start(clear) as int);
    if name.len() == 0 || name == seq!['.'] || name == seq!['.', '.'] {
        None
    } else {
        Some(name)
    }
}

/// The directory that stands before a name, as it is written in the path:
/// without the separators and components `.` at its end, but for the root
/// and for a `.` that starts the path, which stay.
pub open spec fn directory(before: Seq<char>) -> Seq<char>
    decreases before.len(),
{
    if before.len() >= 2 && (before.last() == '/' || (before.last() == '.' && before[before.len()
        - 2] == '/')) {
        directory(before.drop_last())
    } else {
        before
    }
}

/// A name in a directory: a separator stands between them unless the
/// directory is empty or ends in one.
pub open spec fn joined(directory: Seq<char>, name: Seq<char>) -> Seq<char> {
    if directory.len() == 0 || directory.last() == '/' {
        directory + name
    } else {
        directory.push('/') + name
    }
}

/// The path of the mode file that belongs to a duty-cycle file: in the same
/// directory, under the same name with `_enable` after it. A path without
/// a file name has no mode file beside it.
pub open spec fn enable_path(path: Seq<char>) -> Option<Seq<char>> {
    match file_name(path) {
        None => None,
        Some(name) => {
            let clear = trimmed(path);
            Some(joined(directory(clear.take(name_start(clear) as int)), name + "_enable"@))
        },
    }
}

/// The bytes that are kept of what the mode file held.
pub open spec fn kept_mode(observed: Seq<u8>) -> Seq<u8> {
    if observed.len() <= MODE_LEN {
        observed
    } else {
        observed.take(MODE_LEN as int)
    }
}

/// What stands between the actuator and the fan.
#[derive(Clone, Copy, Debug, PartialEq, Eq, Structural)]
pub enum Handles {
    /// The files are closed: they were dropped after a failure.
    Closed,
    /// The files are open, and the mode file has not been written yet.
    Opened,
    /// The files are open and this program is in control of the fan.
    Armed,
}

/// The next thing to do with the files.
#[derive(Debug)]
pub enum PwmStep {
    /// Open the duty-cycle file for writing, emptied, and the mode file for
    /// reading and writing.
    Open,
    /// Write these bytes at the start of the mode file.
    Override(Vec<u8>),
    /// Write these bytes at the start of the duty-cycle file.
    Write(Vec<u8>),
}

/// A step as plain data.
pub enum Due {
    /// Open both files.
    Open,
    /// Write these bytes at the start of the mode file.
    Override(Seq<u8>),
    /// Write these bytes at the start of the duty-cycle file.
    Write(Seq<u8>),
}

impl View for PwmStep {
    type V = Due;

    open spec fn view(&self) -> Due {
        match self {
            PwmStep::Open => Due::Open,
            PwmStep::Override(bytes) => Due::Override(bytes@),
            PwmStep::Write(bytes) => Due::Write(bytes@),
        }
    }
}

/// The step that is due on the way of a duty level to the fan: closed files
/// are opened, a mode file that has not been written since it was opened
/// gets the mark of manual control, and only then the level is written, in
/// decimal.
pub open spec fn due(handles: Handles, level: nat) -> Due {
    match handles {
        Handles::Closed => Due::Open,
        Handles::Opened => Due::Override(seq![MANUAL_MODE]),
        Handles::Armed => Due::Write(digits(level)),
    }
}

/// Where a duty level is on its way to the fan.
#[derive(Debug)]
pub enum Progress {
    /// Another step is due.
    Continue,
    /// The duty level has been written.
    Finished,
    /// The step failed and the files were dropped.
    Failed(FanError),
}

/// What to write into the mode file when the actuator is given up.
#[derive(Debug)]
pub struct Restore {
    /// The mode file is closed and has to be opened first.
    pub reopen: bool,
    /// What the mode file held before the actuator took control.
    pub bytes: Vec<u8>,
}

/// The handles after a step, given how the step went.
pub open spec fn handles_after(handles: Handles, done: bool) -> Handles {
    if !done {
        Handles::Closed
    } else {
        match handles {
            Handles::Closed => Handles::Opened,
            Handles::Opened => Handles::Armed,
            Handles::Armed => Handles::Armed,
        }
    }
}

/// The path of the mode file that belongs to a duty-cycle file, where the
/// path has a file name.
pub fn path_to_pwm_enable(path: &str) -> (enable: Option<String>)
    ensures
        match enable {
            Some(p) => enable_path(path@) == Some(p@),
            None => enable_path(path@) is None,
        },
{
    let len = path.unicode_len();
    let mut end = len;
    let mut trimming = true;
    assert(path@.take(len as int) =~= path@);
    while trimming
        invariant
            end <= len == path@.len(),
            trimmed(path@) == trimmed(path@.take(end as int)),
            !trimming ==> trimmed(path@.take(end as int)) == path@.take(end as int),
        decreases end + (if trimming { 1int } else { 0int }),
    {
        if end >= 1 && path.get_char(end - 1) == '/' {
            assert(path@.take(end as int).drop_last() =~= path@.take(end - 1));
            end = end - 1;
        } else if end >= 2 && path.get_char(end - 1) == '.' && path.get_char(end - 2) == '/' {
            assert(path@.take(end as int).take(end - 2) =~= path@.take(end - 2));
            end = end - 2;
        } else {
            trimming = false;
        }
    }
    let ghost clear = path@.take(end as int);
    let mut start = end;
    assert(clear.take(end as int) =~= clear);
    while start > 0 && path.get_char(start - 1) != '/'
        invariant
            start <= end <= len == path@.len(),
            clear == path@.take(end as int),
            name_start(clear) == name_start(clear.take(start as int)),
        decreases start,
    {
        assert(clear.take(start as int).drop_last() =~= clear.take(start - 1));
        start = start - 1;
    }
    let name = path.substring_char(start, end);
    assert(name@ =~= clear.skip(start as int));
    if end - start == 0 {
        return None;
    }
    if path.get_char(start) == '.' {
        if end - start == 1 {
            assert(name@ =~= seq!['.']);
            return None;
        }
        if end - start == 2 && path.get_char(start + 1) == '.' {
            assert(name@ =~= seq!['.', '.']);
            return None;
        }
    }
    assert(name@ != seq!['.'] && name@ != seq!['.', '.']) by {
        if name@ == seq!['.'] || name@ == seq!['.', '.'] {
            assert(name@[0] == '.');
            if name@.len() == 2 {
                assert(name@[1] == '.');
            }
        }
    }
    let ghost before = clear.take(start as int);
    let mut stop = start;
    let mut clearing = true;
    assert(before =~= path@.take(start as int));
    assert(before.take(start as int) =~= before);
    while clearing
        invariant
            stop <= start <= end <= len == path@.len(),
            before == path@.take(start as int),
            directory(before) == directory(before.take(stop as int)),
            !clearing ==> directory(before.take(stop as int)) == before.take(stop as int),
        decreases stop + (if clearing { 1int } else { 0int }),
    {
        if stop >= 2 && (path.get_char(stop - 1) == '/' || (path.get_char(stop - 1) == '.'
            && path.get_char(stop - 2) == '/')) {
            assert(before.take(stop as int).drop_last() =~= before.take(stop - 1));
            stop = stop - 1;
        } else {
            clearing = false;
        }
    }
    let mut enable = String::from_str(path.substring_char(0, stop));
    assert(enable@ =~= directory(before));
    if stop > 0 && path.get_char(stop - 1) != '/' {
        enable.append("/");
        proof {
            reveal_strlit("/");
            assert("/"@ =~= seq!['/']);
        }
    }
    enable.append(name);
    enable.append("_enable");
    assert(enable@ =~= joined(directory(before), name@ + "_enable"@));
    Some(enable)
}

/// A path that is a directory, a separator and a plain name has its mode
/// file under the path itself with `_enable` after it.
pub proof fn lemma_enable_path_of_plain_path(folder: Seq<char>, name: Seq<char>)
    requires
        folder.len() > 0,
        directory(folder) == folder,
        folder.last() != '/',
        name.len() > 0,
        !name.contains('/'),
        name != seq!['.'],
        name != seq!['.', '.'],
    ensures
        enable_path(folder.push('/') + name) == Some(folder.push('/') + name + "_enable"@),
{
    let path = folder.push('/') + name;
    let split = folder.len() + 1;
    assert(name[name.len() - 1] == path.last());
    assert(name.contains(path.last()));
    assert(trimmed(path) == path) by {
        if path.last() == '.' && path[path.len() - 2] == '/' {
            if name.len() == 1 {
                assert(name =~= seq!['.']);
            } else {
                assert(name[name.len() - 2] == '/');
            }
        }
    }
    lemma_name_start(path, split as int);
    assert(path.skip(split as int) =~= name);
    assert(path.take(split as int) =~= folder.push('/'));
    assert(folder.push('/').drop_last() =~= folder);
    assert(directory(folder.push('/')) == folder);
    assert(joined(folder, name + "_enable"@) =~= path + "_enable"@);
}

/// The last component starts at `split` where a separator stands before
/// `split` and none after it.
pub proof fn lemma_name_start(path: Seq<char>, split: int)
    requires
        0 <= split <= path.len(),
        split > 0 ==> path[split - 1] == '/',
        forall|i: int| split <= i < path.len() ==> path[i] != '/',
    ensures
        name_start(path) == split,
    decreases path.len() - split,
{
    if split < path.len() {
        let shorter = path.drop_last();
        lemma_name_start(shorter, split);
    }
}

/// A fan that is driven through a duty-cycle file.
#[derive(Debug)]
pub struct FanPwm {
    pwm_path: String,
    pwm_enable_path: String,
    original: Vec<u8>,
    handles: Handles,
}

impl FanPwm {
    /// The path of the duty-cycle file.
    pub closed spec fn path(&self) -> Seq<char> {
        self.pwm_path@
    }

    /// The path of the mode file.
    pub closed spec fn path_enable(&self) -> Seq<char> {
        self.pwm_enable_path@
    }

    /// What the mode file held before the actuator took control.
    pub closed spec fn original(&self) -> Seq<u8> {
        self.original@
    }

    /// What stands between the actuator and the fan.
    pub closed spec fn handles(&self) -> Handles {
        self.handles
    }

    /// The actuator for a duty-cycle file, once its two files have been
    /// opened and `observed` has been read from the start of the mode file.
    /// The actuator keeps the first bytes of `observed` for the way back; it
    /// has not taken control yet. A path without a file name has no mode
    /// file beside it and gives no actuator.
    pub fn new(path: &str, observed: &[u8]) -> (fan: Option<Self>)
        ensures
            match fan {
                Some(f) => enable_path(path@) == Some(f.path_enable()) && f.path() == path@
                    && f.original() == kept_mode(observed@) && f.handles() == Handles::Opened,
                None => enable_path(path@) is None,
            },
    {
        match path_to_pwm_enable(path) {
            None => None,
            Some(pwm_enable_path) => {
                let kept = if observed.len() <= MODE_LEN {
                    observed
                } else {
                    slice_subrange(observed, 0, MODE_LEN)
                };
                let mut original: Vec<u8> = Vec::new();
                let mut at: usize = 0;
                while at < kept.len()
                    invariant
                        at <= kept.len(),
                        original@ == kept@.take(at as int),
                    decreases kept.len() - at,
                {
                    original.push(kept[at]);
                    at = at + 1;
                    assert(original@ =~= kept@.take(at as int));
                }
                assert(original@ =~= kept_mode(observed@));
                Some(
                    FanPwm {
                        pwm_path: String::from_str(path),
                        pwm_enable_path,
                        original,
                        handles: Handles::Opened,
                    },
                )
            },
        }
    }

    /// The path of the duty-cycle file.
    pub fn pwm_path(&self) -> (path: &str)
        ensures
            path@ == self.path(),
    {
        self.pwm_path.as_str()
    }

    /// The path of the mode file.
    pub fn pwm_enable_path(&self) -> (path: &str)
        ensures
            path@ == self.path_enable(),
    {
        self.pwm_enable_path.as_str()
    }

    /// Whether the files are open.
    pub fn is_open(&self) -> (open: bool)
        ensures
            open == (self.handles() != Handles::Closed),
    {
        match self.handles {
            Handles::Closed => false,
            _ => true,
        }
    }

    /// The step that is due on the way of `power` to the fan.
    pub fn step(&self, power: FanPower) -> (step: PwmStep)
        ensures
            step@ == due(self.handles(), power.level()),
    {
        match self.handles {
            Handles::Closed => PwmStep::Open,
            Handles::Opened => {
                let mut bytes: Vec<u8> = Vec::new();
                bytes.push(MANUAL_MODE);
                assert(bytes@ =~= seq![MANUAL_MODE]);
                PwmStep::Override(bytes)
            },
            Handles::Armed => PwmStep::Write(power.decimal()),
        }
    }

    /// Takes in how the step that was due went. After a failure the files
    /// count as closed, and the duty level is given up with the failure.
    /// After the duty level was written, it has arrived. After any other
    /// step another one is due.
    pub fn advance(&mut self, outcome: Result<(), String>) -> (progress: Progress)
        ensures
            final(self).handles() == handles_after(old(self).handles(), outcome is Ok),
            final(self).original() == old(self).original(),
            final(self).path() == old(self).path(),
            final(self).path_enable() == old(self).path_enable(),
            match outcome {
                Err(message) => progress == Progress::Failed(FanError::Io(message)),
                Ok(_) => if old(self).handles() == Handles::Armed {
                    progress is Finished
                } else {
                    progress is Continue
                },
            },
    {
        match outcome {
            Err(message) => {
                self.handles = Handles::Closed;
                Progress::Failed(FanError::Io(message))
            },
            Ok(_) => match self.handles {
                Handles::Closed => {
                    self.handles = Handles::Opened;
                    Progress::Continue
                },
                Handles::Opened => {
                    self.handles = Handles::Armed;
                    Progress::Continue
                },
                Handles::Armed => Progress::Finished,
            },
        }
    }

    /// Gives the actuator up. What the mode file held before the actuator
    /// took control is to be written back, once: the actuator is gone after
    /// this.
    pub fn release(self) -> (restore: Restore)
        ensures
            restore.bytes@ == self.original(),
            restore.reopen == (self.handles() == Handles::Closed),
    {
        let reopen = match self.handles {
            Handles::Closed => true,
            _ => false,
        };
        Restore { reopen, bytes: self.original }
    }
}

/// A file after `data` was written at its start.
pub open spec fn overwritten(content: Seq<u8>, data: Seq<u8>) -> Seq<u8> {
    if data.len() >= content.len() {
        data
    } else {
        data + content.skip(data.len() as int)
    }
}

/// The mode file differs from what it held at first in its first byte at most.
pub open spec fn only_first_byte_differs(initial: Seq<u8>, content: Seq<u8>) -> bool {
    content.len() == initial.len() && content.skip(1) == initial.skip(1)
}

/// The mode file after a step: only a step that takes control, and goes
/// well, writes into it.
pub open spec fn mode_after(content: Seq<u8>, step: Due, done: bool) -> Seq<u8> {
    match step {
        Due::Override(bytes) if done => overwritten(content, bytes),
        _ => content,
    }
}

/// The handles and the mode file after a run of steps, each for a duty
/// level and each going well or failing.
pub open spec fn run(handles: Handles, content: Seq<u8>, steps: Seq<(nat, bool)>) -> (
    Handles,
    Seq<u8>,
)
    decreases steps.len(),
{
    if steps.len() == 0 {
        (handles, content)
    } else {
        let (level, done) = steps[0];
        run(
            handles_after(handles, done),
            mode_after(content, due(handles, level), done),
            steps.drop_first(),
        )
    }
}

/// From any state, three steps that go well bring a duty level to the fan,
/// and any step that fails closes the files.
pub proof fn lemma_three_steps_arm(handles: Handles)
    ensures
        handles_after(handles_after(handles, true), true) == Handles::Armed,
        handles_after(handles, false) == Handles::Closed,
{
}

/// Whatever the steps and however they go, the mode file stays within one
/// byte of what it held.
pub proof fn lemma_run_keeps_rest(
    initial: Seq<u8>,
    handles: Handles,
    content: Seq<u8>,
    steps: Seq<(nat, bool)>,
)
    requires
        initial.len() > 0,
        only_first_byte_differs(initial, content),
    ensures
        only_first_byte_differs(initial, run(handles, content, steps).1),
    decreases steps.len(),
{
    if steps.len() > 0 {
        let (level, done) = steps[0];
        let next = mode_after(content, due(handles, level), done);
        assert(only_first_byte_differs(initial, next)) by {
            let marked = overwritten(content, seq![MANUAL_MODE]);
            assert(marked.skip(1) =~= content.skip(1));
        }
        lemma_run_keeps_rest(initial, handles_after(handles, done), next, steps.drop_first());
    }
}

/// Writing back what was kept brings a mode file that is within one byte
/// of what it held back to what it held.
pub proof fn lemma_release_restores(initial: Seq<u8>, content: Seq<u8>)
    requires
        initial.len() > 0,
        only_first_byte_differs(initial, content),
    ensures
        overwritten(content, kept_mode(initial)) == initial,
{
    let kept = kept_mode(initial);
    let back = overwritten(content, kept);
    assert(back.len() == initial.len());
    assert forall|i: int| 0 <= i < initial.len() implies back[i] == initial[i] by {
        if i < kept.len() {
            assert(back[i] == kept[i]);
        } else {
            assert(back[i] == content.skip(kept.len() as int)[i - kept.len()]);
            assert(content[i] == content.skip(1)[i - 1]);
            assert(initial[i] == initial.skip(1)[i - 1]);
        }
    }
    assert(back =~= initial);
}

/// For any run of steps of a new actuator, those that go well and those
/// that fail, writing back on release what the actuator kept leaves the
/// mode file as it was before the actuator was made. The mode file must
/// have held one byte at least, and the last write must go well.
pub proof fn lemma_restore_invariant(initial: Seq<u8>, steps: Seq<(nat, bool)>)
    requires
        initial.len() > 0,
    ensures
        overwritten(run(Handles::Opened, initial, steps).1, kept_mode(initial)) == initial,
{
    assert(initial.skip(1) =~= initial.skip(1));
    lemma_run_keeps_rest(initial, Handles::Opened, initial, steps);
    lemma_release_restores(initial, run(Handles::Opened, initial, steps).1);
}

} // verus!
