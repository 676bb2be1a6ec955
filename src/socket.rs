//! Where navigation requests travel and what they say.
use vstd::prelude::*;

use crate::cli::FocusCommand;
use crate::event_history::{EventHistory, EventStatus};
use crate::hypr_utils::{contains_name, is_tracked_monitor, names_contain};
use crate::types::{SortedDistinctVec, WindowEvent};

verus! {

pub const FOCUS_SOCKET_PATH_ALL: &'static str = "/tmp/hyprhist_focus.sock";

pub const FOCUS_SOCKET_PREFIX: &'static str = "hyprhist_focus";

pub const TMP_PATH: &'static str = "/tmp";

/// A navigation request.
#[derive(Clone, Copy, Debug, PartialEq, Eq, Structural)]
pub enum SocketInstruction {
    Next,
    Prev,
}

impl From<&FocusCommand> for SocketInstruction {
    fn from(value: &FocusCommand) -> (r: Self) {
        match value {
            FocusCommand::Next(_) => SocketInstruction::Next,
            FocusCommand::Prev(_) => SocketInstruction::Prev,
        }
    }
}

impl vstd::std_specs::convert::FromSpecImpl<&FocusCommand> for SocketInstruction {
    open spec fn obeys_from_spec() -> bool {
        true
    }

    open spec fn from_spec(value: &FocusCommand) -> Self {
        match value {
            FocusCommand::Next(_) => SocketInstruction::Next,
            FocusCommand::Prev(_) => SocketInstruction::Prev,
        }
    }
}

impl SocketInstruction {
    pub fn as_str(self) -> (r: &'static str)
        ensures
            r@ == match self {
                SocketInstruction::Next => "next"@,
                SocketInstruction::Prev => "prev"@,
            },
    {
        match self {
            Self::Next => "next",
            Self::Prev => "prev",
        }
    }
}

/// `names` joined with `sep` between neighbours.
pub open spec fn joined(names: Seq<String>, sep: Seq<char>) -> Seq<char>
    decreases names.len(),
{
    if names.len() == 0 {
        Seq::empty()
    } else if names.len() == 1 {
        names[0]@
    } else {
        joined(names.drop_last(), sep) + sep + names.last()@
    }
}

/// The socket of a daemon tracking `monitors`: one shared path when every
/// monitor is tracked, else a path naming each tracked monitor.
pub open spec fn socket_path(monitors: Seq<String>) -> Seq<char> {
    if monitors.len() == 0 {
        FOCUS_SOCKET_PATH_ALL@
    } else {
        TMP_PATH@ + "/"@ + FOCUS_SOCKET_PREFIX@ + "::"@ + joined(monitors, "::"@) + ".sock"@
    }
}

pub fn generate_socket_path(input: &SortedDistinctVec<String>) -> (r: String)
    ensures
        r@ == socket_path(input@),
{
    let names = input.get();
    if names.len() == 0 {
        return FOCUS_SOCKET_PATH_ALL.to_owned();
    }
    let mut path = TMP_PATH.to_owned();
    path.append("/");
    path.append(FOCUS_SOCKET_PREFIX);
    path.append("::");
    let ghost head = path@;
    let mut i: usize = 0;
    while i < names.len()
        invariant
            0 < names@.len(),
            i <= names@.len(),
            path@ == head + joined(names@.subrange(0, i as int), "::"@),
        decreases names@.len() - i,
    {
        proof {
            let next = names@.subrange(0, i + 1);
            assert(next.drop_last() =~= names@.subrange(0, i as int));
            assert(next.last() == names@[i as int]);
        }
        if i > 0 {
            path.append("::");
        }
        path.append(names[i].as_str());
        proof {
            if i == 0 {
                assert(path@ =~= head + joined(names@.subrange(0, 1), "::"@));
            } else {
                assert(path@ =~= head + joined(names@.subrange(0, i + 1), "::"@));
            }
        }
        i += 1;
    }
    assert(names@.subrange(0, names@.len() as int) =~= names@);
    path.append(".sock");
    path
}

/// Whether a focus command issued on `current_monitor` concerns a daemon:
/// it does when the command names no monitor or names that one.
pub fn command_targets_monitor(command: &FocusCommand, current_monitor: &String) -> (r: bool)
    ensures
        r == crate::hypr_utils::tracks(command.requested_monitors()@, current_monitor@),
{
    is_tracked_monitor(current_monitor, command.requested_monitors().as_slice())
}

/// Carries out a navigation request on the focus history; gives the address
/// of the window to focus, or none when there is nowhere to go.
pub fn navigate(history: &mut EventHistory<WindowEvent>, instruction: SocketInstruction) -> (r:
    Option<String>)
    requires
        old(history)@.wf(),
    ensures
        final(history)@.wf(),
        final(history)@ == match instruction {
            SocketInstruction::Next => old(history)@.after_forward(),
            SocketInstruction::Prev => old(history)@.after_backward(),
        },
        ({
            let target = match instruction {
                SocketInstruction::Next => old(history)@.forward_target(),
                SocketInstruction::Prev => old(history)@.backward_target(),
            };
            match r {
                Some(address) => {
                    &&& target matches Some(j)
                    &&& 0 <= j < old(history)@.entries.len()
                    &&& old(history)@.entries[j] matches EventStatus::Active(w)
                    &&& w.address@ == address@
                },
                None => target is None,
            }
        }),
{
    let landed = match instruction {
        SocketInstruction::Next => history.forward(),
        SocketInstruction::Prev => history.backward(),
    };
    match landed {
        Some(window) => Some(window.address.clone()),
        None => None,
    }
}

/// The pieces of `s` between the occurrences of `sep`, taken left to right
/// without overlap.
pub open spec fn pieces(s: Seq<char>, sep: Seq<char>) -> Seq<Seq<char>>
    decreases s.len(),
{
    if s.len() == 0 {
        seq![Seq::empty()]
    } else if sep.len() > 0 && sep.is_prefix_of(s) {
        seq![Seq::empty()] + pieces(s.subrange(sep.len() as int, s.len() as int), sep)
    } else {
        let rest = pieces(s.drop_first(), sep);
        rest.update(0, seq![s[0]] + rest[0])
    }
}

/// Relies on `str::strip_prefix`: what follows `prefix` when `s` starts with it.
#[verifier::external_body]
fn strip_prefix<'a>(s: &'a str, prefix: &str) -> (r: Option<&'a str>)
    ensures
        match r {
            Some(rest) => prefix@.is_prefix_of(s@) && rest@ == s@.subrange(
                prefix@.len() as int,
                s@.len() as int,
            ),
            None => !prefix@.is_prefix_of(s@),
        },
{
    s.strip_prefix(prefix)
}

/// Relies on `str::strip_suffix`: what precedes `suffix` when `s` ends with it.
#[verifier::external_body]
fn strip_suffix<'a>(s: &'a str, suffix: &str) -> (r: Option<&'a str>)
    ensures
        match r {
            Some(rest) => suffix@.is_suffix_of(s@) && rest@ == s@.subrange(
                0,
                s@.len() - suffix@.len(),
            ),
            None => !suffix@.is_suffix_of(s@),
        },
{
    s.strip_suffix(suffix)
}

/// Relies on `str::split`: the pieces between the occurrences of `sep`,
/// found left to right without overlap.
#[verifier::external_body]
fn split_on(s: &str, sep: &str) -> (r: Vec<String>)
    requires
        sep@.len() > 0,
    ensures
        r@.map_values(|p: String| p@) == pieces(s@, sep@),
{
    s.split(sep).map(|p| p.to_string()).collect()
}

/// The monitors a selective socket file names: the pieces between `::` after
/// the prefix, once the `.sock` extension is taken off.
pub open spec fn socket_monitors(file_name: Seq<char>) -> Option<Seq<Seq<char>>> {
    let head = FOCUS_SOCKET_PREFIX@ + "::"@;
    if ".sock"@.is_suffix_of(file_name) {
        let stem = file_name.subrange(0, file_name.len() - 5);
        if head.is_prefix_of(stem) {
            Some(pieces(stem.subrange(head.len() as int, stem.len() as int), "::"@))
        } else {
            None
        }
    } else {
        None
    }
}

/// Whether an existing focus socket, named `file_name` at `path`, conflicts
/// with a daemon tracking `requested`: a daemon of every monitor conflicts
/// with every other socket; a selective one with the socket of every monitor
/// and with each socket that names a monitor it tracks.
pub open spec fn socket_conflicts(file_name: Seq<char>, path: Seq<char>, requested: Seq<String>) -> bool {
    if requested.len() == 0 {
        path != FOCUS_SOCKET_PATH_ALL@
    } else {
        ||| path == FOCUS_SOCKET_PATH_ALL@
        ||| socket_monitors(file_name) matches Some(monitors) && exists|i: int|
            0 <= i < monitors.len() && names_contain(requested, #[trigger] monitors[i])
    }
}

pub fn is_conflicting_socket(
    file_name: &str,
    path: &str,
    requested_monitors: &SortedDistinctVec<String>,
) -> (r: bool)
    ensures
        r == socket_conflicts(file_name@, path@, requested_monitors@),
{
    let requested = requested_monitors.get();
    let is_all = path.to_owned() == FOCUS_SOCKET_PATH_ALL.to_owned();
    if requested.len() == 0 {
        return !is_all;
    }
    if is_all {
        return true;
    }
    proof {
        reveal_strlit(".sock");
        reveal_strlit("::");
    }
    let stem = match strip_suffix(file_name, ".sock") {
        Some(stem) => stem,
        None => return false,
    };
    let mut head = FOCUS_SOCKET_PREFIX.to_owned();
    head.append("::");
    let listed = match strip_prefix(stem, head.as_str()) {
        Some(listed) => listed,
        None => return false,
    };
    let monitors = split_on(listed, "::");
    let ghost named = monitors@.map_values(|p: String| p@);
    assert(socket_monitors(file_name@) == Some(named));
    let mut i: usize = 0;
    while i < monitors.len()
        invariant
            named == monitors@.map_values(|p: String| p@),
            socket_monitors(file_name@) == Some(named),
            requested@ == requested_monitors@,
            requested@.len() > 0,
            path@ != FOCUS_SOCKET_PATH_ALL@,
            i <= monitors@.len(),
            forall|j: int| 0 <= j < i ==> !names_contain(requested@, #[trigger] named[j]),
        decreases monitors@.len() - i,
    {
        assert(named[i as int] == monitors@[i as int]@);
        if contains_name(requested, &monitors[i]) {
            assert(names_contain(requested@, named[i as int]));
            assert(names_contain(requested_monitors@, socket_monitors(file_name@)->0[i as int]));
            return true;
        }
        i += 1;
    }
    false
}

} // verus!
