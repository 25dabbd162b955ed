//! The laws of what is printed.
//!
//! Whatever the library prints can be read: behind each label stands the value
//! that the label announces, and different things look different. Command lines
//! are read by what they say, wherever in the line they say it.

use crate::capability::{CapEntry, CapSlot, Capability, ObjectRef, Rights, TableView};
use crate::error::KernelError;
use crate::kernel::RunReport;
use crate::state::{KernelView, TaskView};
use crate::trace::EventView;
use vstd::prelude::*;

verus! {

/// Whether a line consists of something, a label, a value, and something that
/// does not go on with a digit.
pub open spec fn parted(
    line: Seq<char>,
    before: Seq<char>,
    label: Seq<char>,
    value: Seq<char>,
    after: Seq<char>,
) -> bool {
    &&& line == before + label + value + after
    &&& after.len() == 0 || !crate::text::is_digit(after[0])
}

/// Whether a line shows a value behind a label.
pub open spec fn shows(line: Seq<char>, label: Seq<char>, value: Seq<char>) -> bool {
    exists|before: Seq<char>, after: Seq<char>| #[trigger]
        parted(line, before, label, value, after)
}

/// How a line shows a value.
proof fn lemma_shows(
    line: Seq<char>,
    before: Seq<char>,
    label: Seq<char>,
    value: Seq<char>,
    after: Seq<char>,
)
    requires
        line =~= before + label + value + after,
        after.len() == 0 || !crate::text::is_digit(after[0]),
    ensures
        shows(line, label, value),
{
    assert(parted(line, before, label, value, after));
}

/// How a line ends.
proof fn lemma_suffix(line: Seq<char>, end: Seq<char>)
    requires
        exists|before: Seq<char>| line == #[trigger] (before + end),
    ensures
        end.is_suffix_of(line),
{
    let before = choose|before: Seq<char>| line == #[trigger] (before + end);
    assert(line.subrange(line.len() - end.len(), line.len() as int) =~= end);
}

/// Whether a text begins with something that is no digit.
spec fn opens(text: Seq<char>) -> bool {
    text.len() > 0 && !crate::text::is_digit(text[0])
}

/// How a line shows one value.
proof fn lemma_shows_one(
    line: Seq<char>,
    a: Seq<char>,
    x: Seq<char>,
    tail: Seq<char>,
)
    requires
        line == a + x + tail,
        tail.len() == 0 || opens(tail),
    ensures
        shows(line, a, x),
        tail.is_suffix_of(line),
{
    lemma_shows(line, Seq::empty(), a, x, tail);
    lemma_suffix(line, tail);
}

/// How a line shows two values.
proof fn lemma_shows_two(
    line: Seq<char>,
    a: Seq<char>,
    x: Seq<char>,
    b: Seq<char>,
    y: Seq<char>,
    tail: Seq<char>,
)
    requires
        line == a + x + b + y + tail,
        opens(b),
        tail.len() == 0 || opens(tail),
    ensures
        shows(line, a, x),
        shows(line, b, y),
        tail.is_suffix_of(line),
{
    lemma_shows(line, Seq::empty(), a, x, b + y + tail);
    lemma_shows(line, a + x, b, y, tail);
    lemma_suffix(line, tail);
}

/// How a line shows three values.
proof fn lemma_shows_three(
    line: Seq<char>,
    a: Seq<char>,
    x: Seq<char>,
    b: Seq<char>,
    y: Seq<char>,
    c: Seq<char>,
    z: Seq<char>,
    tail: Seq<char>,
)
    requires
        line == a + x + b + y + c + z + tail,
        opens(b),
        opens(c),
        tail.len() == 0 || opens(tail),
    ensures
        shows(line, a, x),
        shows(line, b, y),
        shows(line, c, z),
        tail.is_suffix_of(line),
{
    lemma_shows(line, Seq::empty(), a, x, b + y + c + z + tail);
    lemma_shows(line, a + x, b, y, c + z + tail);
    lemma_shows(line, a + x + b + y, c, z, tail);
    lemma_suffix(line, tail);
}

/// How a line shows four values.
proof fn lemma_shows_four(
    line: Seq<char>,
    a: Seq<char>,
    x: Seq<char>,
    b: Seq<char>,
    y: Seq<char>,
    c: Seq<char>,
    z: Seq<char>,
    d: Seq<char>,
    w: Seq<char>,
    tail: Seq<char>,
)
    requires
        line == a + x + b + y + c + z + d + w + tail,
        opens(b),
        opens(c),
        opens(d),
        tail.len() == 0 || opens(tail),
    ensures
        shows(line, a, x),
        shows(line, b, y),
        shows(line, c, z),
        shows(line, d, w),
        tail.is_suffix_of(line),
{
    lemma_shows(line, Seq::empty(), a, x, b + y + c + z + d + w + tail);
    lemma_shows(line, a + x, b, y, c + z + d + w + tail);
    lemma_shows(line, a + x + b + y, c, z, d + w + tail);
    lemma_shows(line, a + x + b + y + c + z, d, w, tail);
    lemma_suffix(line, tail);
}

/// How a line shows five values.
proof fn lemma_shows_five(
    line: Seq<char>,
    a: Seq<char>,
    x: Seq<char>,
    b: Seq<char>,
    y: Seq<char>,
    c: Seq<char>,
    z: Seq<char>,
    d: Seq<char>,
    w: Seq<char>,
    e: Seq<char>,
    v: Seq<char>,
    tail: Seq<char>,
)
    requires
        line == a + x + b + y + c + z + d + w + e + v + tail,
        opens(b),
        opens(c),
        opens(d),
        opens(e),
        tail.len() == 0 || opens(tail),
    ensures
        shows(line, a, x),
        shows(line, b, y),
        shows(line, c, z),
        shows(line, d, w),
        shows(line, e, v),
        tail.is_suffix_of(line),
{
    lemma_shows(line, Seq::empty(), a, x, b + y + c + z + d + w + e + v + tail);
    lemma_shows(line, a + x, b, y, c + z + d + w + e + v + tail);
    lemma_shows(line, a + x + b + y, c, z, d + w + e + v + tail);
    lemma_shows(line, a + x + b + y + c + z, d, w, e + v + tail);
    lemma_shows(line, a + x + b + y + c + z + d + w, e, v, tail);
    lemma_suffix(line, tail);
}

// -- objects, denials and events ----------------------------------------------

/// The line of one kind of event.
proof fn lemma_dispatch_line(event: EventView)
    requires
        event is Dispatch,
    ensures
        ({
            let line = event.text();
            event matches EventView::Dispatch { tick, thread, task } && {
                &&& shows(line, "[t"@, crate::text::pad_left(crate::text::decimal(tick), 3))
                &&& shows(line, "] dispatch thread#"@, crate::text::decimal(thread as nat))
                &&& shows(line, " (task#"@, crate::text::decimal(task as nat))
                &&& ")"@.is_suffix_of(line)
            }
        }),
{
    let line = event.text();
    if let EventView::Dispatch { tick, thread, task } = event {
        reveal_strlit("] dispatch thread#");
        reveal_strlit(" (task#");
        reveal_strlit(")");
        lemma_shows_three(
            line,
            "[t"@,
            crate::text::pad_left(crate::text::decimal(tick), 3),
            "] dispatch thread#"@,
            crate::text::decimal(thread as nat),
            " (task#"@,
            crate::text::decimal(task as nat),
            ")"@,
        );
    }
}

/// The line of one kind of event.
proof fn lemma_compute_line(event: EventView)
    requires
        event is Compute,
    ensures
        ({
            let line = event.text();
            event matches EventView::Compute { thread, cycles } && {
                &&& shows(line, "        thread#"@, crate::text::decimal(thread as nat))
                &&& shows(line, " compute "@, crate::text::decimal(cycles as nat))
                &&& " cycles"@.is_suffix_of(line)
            }
        }),
{
    let line = event.text();
    if let EventView::Compute { thread, cycles } = event {
        reveal_strlit(" compute ");
        reveal_strlit(" cycles");
        lemma_shows_two(
            line,
            "        thread#"@,
            crate::text::decimal(thread as nat),
            " compute "@,
            crate::text::decimal(cycles as nat),
            " cycles"@,
        );
    }
}

/// The line of one kind of event.
proof fn lemma_block_send_line(event: EventView)
    requires
        event is BlockSend,
    ensures
        ({
            let line = event.text();
            event matches EventView::BlockSend { thread, endpoint } && {
                &&& shows(line, "        thread#"@, crate::text::decimal(thread as nat))
                &&& shows(line, " blocks on send endpoint#"@, crate::text::decimal(endpoint as nat))
            }
        }),
{
    let line = event.text();
    if let EventView::BlockSend { thread, endpoint } = event {
        assert(line =~= line + Seq::empty());
        reveal_strlit(" blocks on send endpoint#");
        lemma_shows_two(
            line,
            "        thread#"@,
            crate::text::decimal(thread as nat),
            " blocks on send endpoint#"@,
            crate::text::decimal(endpoint as nat),
            Seq::empty(),
        );
    }
}

/// The line of one kind of event.
proof fn lemma_block_recv_line(event: EventView)
    requires
        event is BlockRecv,
    ensures
        ({
            let line = event.text();
            event matches EventView::BlockRecv { thread, endpoint } && {
                &&& shows(line, "        thread#"@, crate::text::decimal(thread as nat))
                &&& shows(line, " blocks on recv endpoint#"@, crate::text::decimal(endpoint as nat))
            }
        }),
{
    let line = event.text();
    if let EventView::BlockRecv { thread, endpoint } = event {
        assert(line =~= line + Seq::empty());
        reveal_strlit(" blocks on recv endpoint#");
        lemma_shows_two(
            line,
            "        thread#"@,
            crate::text::decimal(thread as nat),
            " blocks on recv endpoint#"@,
            crate::text::decimal(endpoint as nat),
            Seq::empty(),
        );
    }
}

/// The line of one kind of event.
proof fn lemma_rendezvous_line(event: EventView)
    requires
        event is Rendezvous,
    ensures
        ({
            let line = event.text();
            event matches EventView::Rendezvous { sender, receiver, endpoint, label, bytes } && {
                &&& shows(line, "        IPC endpoint#"@, crate::text::decimal(endpoint as nat))
                &&& shows(line, ": thread#"@, crate::text::decimal(sender as nat))
                &&& shows(line, " -> thread#"@, crate::text::decimal(receiver as nat))
                &&& shows(line, " label="@, crate::text::decimal(label as nat))
                &&& shows(line, " ("@, crate::text::decimal(bytes))
                &&& " bytes)"@.is_suffix_of(line)
            }
        }),
{
    let line = event.text();
    if let EventView::Rendezvous { sender, receiver, endpoint, label, bytes } = event {
        reveal_strlit(": thread#");
        reveal_strlit(" -> thread#");
        reveal_strlit(" label=");
        reveal_strlit(" (");
        reveal_strlit(" bytes)");
        lemma_shows_five(
            line,
            "        IPC endpoint#"@,
            crate::text::decimal(endpoint as nat),
            ": thread#"@,
            crate::text::decimal(sender as nat),
            " -> thread#"@,
            crate::text::decimal(receiver as nat),
            " label="@,
            crate::text::decimal(label as nat),
            " ("@,
            crate::text::decimal(bytes),
            " bytes)"@,
        );
    }
}

/// The line of one kind of event.
proof fn lemma_cap_transfer_line(event: EventView)
    requires
        event is CapTransfer,
    ensures
        ({
            let line = event.text();
            event matches EventView::CapTransfer { from, to, object, rights, new_slot } && {
                &&& shows(line, "        cap transfer "@, object.text())
                &&& shows(line, " ["@, rights.text())
                &&& shows(line, "] task#"@, crate::text::decimal(from as nat))
                &&& shows(line, " -> task#"@, crate::text::decimal(to as nat))
                &&& shows(line, " into slot "@, crate::text::decimal(new_slot as nat))
            }
        }),
{
    let line = event.text();
    if let EventView::CapTransfer { from, to, object, rights, new_slot } = event {
        assert(line =~= line + Seq::empty());
        reveal_strlit(" [");
        reveal_strlit("] task#");
        reveal_strlit(" -> task#");
        reveal_strlit(" into slot ");
        lemma_shows_five(
            line,
            "        cap transfer "@,
            object.text(),
            " ["@,
            rights.text(),
            "] task#"@,
            crate::text::decimal(from as nat),
            " -> task#"@,
            crate::text::decimal(to as nat),
            " into slot "@,
            crate::text::decimal(new_slot as nat),
            Seq::empty(),
        );
    }
}

/// The line of one kind of event.
proof fn lemma_mem_read_line(event: EventView)
    requires
        event is MemRead,
    ensures
        ({
            let line = event.text();
            event matches EventView::MemRead { thread, region, offset, value } && {
                &&& shows(line, "        thread#"@, crate::text::decimal(thread as nat))
                &&& shows(line, " read region#"@, crate::text::decimal(region as nat))
                &&& shows(line, "["@, crate::text::decimal(offset as nat))
                &&& shows(line, "] = "@, crate::text::hex_byte(value))
            }
        }),
{
    let line = event.text();
    if let EventView::MemRead { thread, region, offset, value } = event {
        assert(line =~= line + Seq::empty());
        reveal_strlit(" read region#");
        reveal_strlit("[");
        reveal_strlit("] = ");
        lemma_shows_four(
            line,
            "        thread#"@,
            crate::text::decimal(thread as nat),
            " read region#"@,
            crate::text::decimal(region as nat),
            "["@,
            crate::text::decimal(offset as nat),
            "] = "@,
            crate::text::hex_byte(value),
            Seq::empty(),
        );
    }
}

/// The line of one kind of event.
proof fn lemma_mem_write_line(event: EventView)
    requires
        event is MemWrite,
    ensures
        ({
            let line = event.text();
            event matches EventView::MemWrite { thread, region, offset, value } && {
                &&& shows(line, "        thread#"@, crate::text::decimal(thread as nat))
                &&& shows(line, " write region#"@, crate::text::decimal(region as nat))
                &&& shows(line, "["@, crate::text::decimal(offset as nat))
                &&& shows(line, "] = "@, crate::text::hex_byte(value))
            }
        }),
{
    let line = event.text();
    if let EventView::MemWrite { thread, region, offset, value } = event {
        assert(line =~= line + Seq::empty());
        reveal_strlit(" write region#");
        reveal_strlit("[");
        reveal_strlit("] = ");
        lemma_shows_four(
            line,
            "        thread#"@,
            crate::text::decimal(thread as nat),
            " write region#"@,
            crate::text::decimal(region as nat),
            "["@,
            crate::text::decimal(offset as nat),
            "] = "@,
            crate::text::hex_byte(value),
            Seq::empty(),
        );
    }
}

/// The line of one kind of event.
proof fn lemma_denied_line(event: EventView)
    requires
        event is Denied,
    ensures
        ({
            let line = event.text();
            event matches EventView::Denied { thread, syscall, reason } && {
                &&& shows(line, "        thread#"@, crate::text::decimal(thread as nat))
                &&& shows(line, " "@, syscall)
                &&& shows(line, " DENIED: "@, reason)
            }
        }),
{
    let line = event.text();
    if let EventView::Denied { thread, syscall, reason } = event {
        assert(line =~= line + Seq::empty());
        reveal_strlit(" ");
        reveal_strlit(" DENIED: ");
        lemma_shows_three(
            line,
            "        thread#"@,
            crate::text::decimal(thread as nat),
            " "@,
            syscall,
            " DENIED: "@,
            reason,
            Seq::empty(),
        );
    }
}

/// The line of one kind of event.
proof fn lemma_exit_line(event: EventView)
    requires
        event is Exit,
    ensures
        ({
            let line = event.text();
            event matches EventView::Exit { thread } && {
                &&& shows(line, "        thread#"@, crate::text::decimal(thread as nat))
                &&& " exit"@.is_suffix_of(line)
            }
        }),
{
    let line = event.text();
    if let EventView::Exit { thread } = event {
        reveal_strlit(" exit");
        lemma_shows_one(
            line,
            "        thread#"@,
            crate::text::decimal(thread as nat),
            " exit"@,
        );
    }
}

/// The line of an event names everything about it: behind each label stands the
/// value that the label announces.
pub proof fn law_an_event_line_names_everything(event: EventView)
    ensures
        ({
            let line = event.text();
            match event {
                EventView::Dispatch { tick, thread, task } => {
                    &&& shows(line, "[t"@, crate::text::pad_left(crate::text::decimal(tick), 3))
                    &&& shows(line, "] dispatch thread#"@, crate::text::decimal(thread as nat))
                    &&& shows(line, " (task#"@, crate::text::decimal(task as nat))
                    &&& ")"@.is_suffix_of(line)
                },
                EventView::Compute { thread, cycles } => {
                    &&& shows(line, "        thread#"@, crate::text::decimal(thread as nat))
                    &&& shows(line, " compute "@, crate::text::decimal(cycles as nat))
                    &&& " cycles"@.is_suffix_of(line)
                },
                EventView::BlockSend { thread, endpoint } => {
                    &&& shows(line, "        thread#"@, crate::text::decimal(thread as nat))
                    &&& shows(line, " blocks on send endpoint#"@, crate::text::decimal(endpoint as nat))
                },
                EventView::BlockRecv { thread, endpoint } => {
                    &&& shows(line, "        thread#"@, crate::text::decimal(thread as nat))
                    &&& shows(line, " blocks on recv endpoint#"@, crate::text::decimal(endpoint as nat))
                },
                EventView::Rendezvous { sender, receiver, endpoint, label, bytes } => {
                    &&& shows(line, "        IPC endpoint#"@, crate::text::decimal(endpoint as nat))
                    &&& shows(line, ": thread#"@, crate::text::decimal(sender as nat))
                    &&& shows(line, " -> thread#"@, crate::text::decimal(receiver as nat))
                    &&& shows(line, " label="@, crate::text::decimal(label as nat))
                    &&& shows(line, " ("@, crate::text::decimal(bytes))
                    &&& " bytes)"@.is_suffix_of(line)
                },
                EventView::CapTransfer { from, to, object, rights, new_slot } => {
                    &&& shows(line, "        cap transfer "@, object.text())
                    &&& shows(line, " ["@, rights.text())
                    &&& shows(line, "] task#"@, crate::text::decimal(from as nat))
                    &&& shows(line, " -> task#"@, crate::text::decimal(to as nat))
                    &&& shows(line, " into slot "@, crate::text::decimal(new_slot as nat))
                },
                EventView::MemRead { thread, region, offset, value } => {
                    &&& shows(line, "        thread#"@, crate::text::decimal(thread as nat))
                    &&& shows(line, " read region#"@, crate::text::decimal(region as nat))
                    &&& shows(line, "["@, crate::text::decimal(offset as nat))
                    &&& shows(line, "] = "@, crate::text::hex_byte(value))
                },
                EventView::MemWrite { thread, region, offset, value } => {
                    &&& shows(line, "        thread#"@, crate::text::decimal(thread as nat))
                    &&& shows(line, " write region#"@, crate::text::decimal(region as nat))
                    &&& shows(line, "["@, crate::text::decimal(offset as nat))
                    &&& shows(line, "] = "@, crate::text::hex_byte(value))
                },
                EventView::Denied { thread, syscall, reason } => {
                    &&& shows(line, "        thread#"@, crate::text::decimal(thread as nat))
                    &&& shows(line, " "@, syscall)
                    &&& shows(line, " DENIED: "@, reason)
                },
                EventView::Exit { thread } => {
                    &&& shows(line, "        thread#"@, crate::text::decimal(thread as nat))
                    &&& " exit"@.is_suffix_of(line)
                },
            }
        }),
{
    match event {
        EventView::Dispatch { .. } => {
            lemma_dispatch_line(event);
        },
        EventView::Compute { .. } => {
            lemma_compute_line(event);
        },
        EventView::BlockSend { .. } => {
            lemma_block_send_line(event);
        },
        EventView::BlockRecv { .. } => {
            lemma_block_recv_line(event);
        },
        EventView::Rendezvous { .. } => {
            lemma_rendezvous_line(event);
        },
        EventView::CapTransfer { .. } => {
            lemma_cap_transfer_line(event);
        },
        EventView::MemRead { .. } => {
            lemma_mem_read_line(event);
        },
        EventView::MemWrite { .. } => {
            lemma_mem_write_line(event);
        },
        EventView::Denied { .. } => {
            lemma_denied_line(event);
        },
        EventView::Exit { .. } => {
            lemma_exit_line(event);
        },
    }
}

/// The text of one kind of denial.
proof fn lemma_no_such_capability_line(error: KernelError)
    requires
        error is NoSuchCapability,
    ensures
        ({
            let line = error.text();
            error matches KernelError::NoSuchCapability { slot } && {
                &&& shows(line, "denied: no capability in slot "@, crate::text::decimal(slot as nat))
            }
        }),
{
    let line = error.text();
    if let KernelError::NoSuchCapability { slot } = error {
        assert(line =~= line + Seq::empty());
        lemma_shows_one(
            line,
            "denied: no capability in slot "@,
            crate::text::decimal(slot as nat),
            Seq::empty(),
        );
    }
}

/// The text of one kind of denial.
proof fn lemma_wrong_object_line(error: KernelError)
    requires
        error is WrongObject,
    ensures
        ({
            let line = error.text();
            error matches KernelError::WrongObject { slot, expected } && {
                &&& shows(line, "denied: slot "@, crate::text::decimal(slot as nat))
                &&& shows(line, " is not a capability of kind "@, expected@)
            }
        }),
{
    let line = error.text();
    if let KernelError::WrongObject { slot, expected } = error {
        assert(line =~= line + Seq::empty());
        reveal_strlit(" is not a capability of kind ");
        lemma_shows_two(
            line,
            "denied: slot "@,
            crate::text::decimal(slot as nat),
            " is not a capability of kind "@,
            expected@,
            Seq::empty(),
        );
    }
}

/// The text of one kind of denial.
proof fn lemma_missing_right_line(error: KernelError)
    requires
        error is MissingRight,
    ensures
        ({
            let line = error.text();
            error matches KernelError::MissingRight { slot, needed } && {
                &&& shows(line, "denied: slot "@, crate::text::decimal(slot as nat))
                &&& shows(line, " lacks right "@, needed.text())
            }
        }),
{
    let line = error.text();
    if let KernelError::MissingRight { slot, needed } = error {
        assert(line =~= line + Seq::empty());
        reveal_strlit(" lacks right ");
        lemma_shows_two(
            line,
            "denied: slot "@,
            crate::text::decimal(slot as nat),
            " lacks right "@,
            needed.text(),
            Seq::empty(),
        );
    }
}

/// The text of one kind of denial.
proof fn lemma_out_of_bounds_line(error: KernelError)
    requires
        error is OutOfBounds,
    ensures
        ({
            let line = error.text();
            error matches KernelError::OutOfBounds { object, offset, len } && {
                &&& shows(line, "denied: offset "@, crate::text::decimal(offset as nat))
                &&& shows(line, " out of bounds for "@, object.text())
                &&& shows(line, " of length "@, crate::text::decimal(len as nat))
            }
        }),
{
    let line = error.text();
    if let KernelError::OutOfBounds { object, offset, len } = error {
        assert(line =~= line + Seq::empty());
        reveal_strlit(" out of bounds for ");
        reveal_strlit(" of length ");
        lemma_shows_three(
            line,
            "denied: offset "@,
            crate::text::decimal(offset as nat),
            " out of bounds for "@,
            object.text(),
            " of length "@,
            crate::text::decimal(len as nat),
            Seq::empty(),
        );
    }
}

/// The text of one kind of denial.
proof fn lemma_no_such_object_line(error: KernelError)
    requires
        error is NoSuchObject,
    ensures
        ({
            let line = error.text();
            error matches KernelError::NoSuchObject { object } && {
                &&& shows(line, "denied: object "@, object.text())
                &&& " does not exist"@.is_suffix_of(line)
            }
        }),
{
    let line = error.text();
    if let KernelError::NoSuchObject { object } = error {
        reveal_strlit(" does not exist");
        lemma_shows_one(
            line,
            "denied: object "@,
            object.text(),
            " does not exist"@,
        );
    }
}

/// The text of a denial names everything about it: behind each label stands the
/// value that the label announces.
pub proof fn law_a_denial_names_its_reason(error: KernelError)
    ensures
        ({
            let line = error.text();
            match error {
                KernelError::NoSuchCapability { slot } => {
                    &&& shows(line, "denied: no capability in slot "@, crate::text::decimal(slot as nat))
                },
                KernelError::WrongObject { slot, expected } => {
                    &&& shows(line, "denied: slot "@, crate::text::decimal(slot as nat))
                    &&& shows(line, " is not a capability of kind "@, expected@)
                },
                KernelError::MissingRight { slot, needed } => {
                    &&& shows(line, "denied: slot "@, crate::text::decimal(slot as nat))
                    &&& shows(line, " lacks right "@, needed.text())
                },
                KernelError::OutOfBounds { object, offset, len } => {
                    &&& shows(line, "denied: offset "@, crate::text::decimal(offset as nat))
                    &&& shows(line, " out of bounds for "@, object.text())
                    &&& shows(line, " of length "@, crate::text::decimal(len as nat))
                },
                KernelError::NoSuchObject { object } => {
                    &&& shows(line, "denied: object "@, object.text())
                    &&& " does not exist"@.is_suffix_of(line)
                },
                KernelError::NoReplyCapability => line == "denied: no reply capability available"@,
            }
        }),
{
    match error {
        KernelError::NoSuchCapability { .. } => {
            lemma_no_such_capability_line(error);
        },
        KernelError::WrongObject { .. } => {
            lemma_wrong_object_line(error);
        },
        KernelError::MissingRight { .. } => {
            lemma_missing_right_line(error);
        },
        KernelError::OutOfBounds { .. } => {
            lemma_out_of_bounds_line(error);
        },
        KernelError::NoSuchObject { .. } => {
            lemma_no_such_object_line(error);
        },
        KernelError::NoReplyCapability => {},
    }
}

/// An object is shown by its kind and its number.
pub proof fn law_an_object_is_shown_by_kind_and_number(object: ObjectRef)
    ensures
        object is Endpoint ==> shows(
            object.text(),
            "endpoint#"@,
            crate::text::decimal(object->Endpoint_0 as nat),
        ),
        object is Region ==> shows(
            object.text(),
            "region#"@,
            crate::text::decimal(object->Region_0 as nat),
        ),
        object is Thread ==> shows(
            object.text(),
            "thread#"@,
            crate::text::decimal(object->Thread_0 as nat),
        ),
        object is Task ==> shows(
            object.text(),
            "task#"@,
            crate::text::decimal(object->Task_0 as nat),
        ),
{
    reveal_strlit("#");
    reveal_strlit("endpoint");
    reveal_strlit("region");
    reveal_strlit("thread");
    reveal_strlit("task");
    reveal_strlit("endpoint#");
    reveal_strlit("region#");
    reveal_strlit("thread#");
    reveal_strlit("task#");
    let label = match object {
        ObjectRef::Endpoint(_) => "endpoint#"@,
        ObjectRef::Region(_) => "region#"@,
        ObjectRef::Thread(_) => "thread#"@,
        ObjectRef::Task(_) => "task#"@,
    };
    assert(object.kind()@ + "#"@ =~= label);
    lemma_shows(
        object.text(),
        Seq::empty(),
        label,
        crate::text::decimal(object.number() as nat),
        Seq::empty(),
    );
}

// -- rights -------------------------------------------------------------------

/// The rights in the order in which they are listed.
pub open spec fn right(i: int) -> Rights {
    if i == 0 {
        Rights::send()
    } else if i == 1 {
        Rights::recv()
    } else if i == 2 {
        Rights::grant()
    } else if i == 3 {
        Rights::read()
    } else {
        Rights::write()
    }
}

/// The names of the rights in the same order.
pub open spec fn right_name(i: int) -> Seq<char> {
    if i == 0 {
        "send"@
    } else if i == 1 {
        "recv"@
    } else if i == 2 {
        "grant"@
    } else if i == 3 {
        "read"@
    } else {
        "write"@
    }
}

/// A union has a single right if and only if one of its parts has it.
proof fn lemma_union_has(a: Rights, i: int, j: int)
    requires
        0 <= i < 5,
        0 <= j < 5,
    ensures
        a.union(right(i)).contains(right(j)) <==> a.contains(right(j)) || i == j,
        Rights::none().contains(right(j)) <==> false,
        right(i).contains(right(j)) <==> i == j,
{
    let (x, p, q) = (a.bits, right(i).bits, right(j).bits);
    assert((x | p) & q == q <==> (x & q == q || p == q)) by (bit_vector)
        requires
            p == 1 || p == 2 || p == 4 || p == 8 || p == 16,
            q == 1 || q == 2 || q == 4 || q == 8 || q == 16,
    ;
    assert(p & q == q <==> p == q) by (bit_vector)
        requires
            p == 1 || p == 2 || p == 4 || p == 8 || p == 16,
            q == 1 || q == 2 || q == 4 || q == 8 || q == 16,
    ;
    assert(0u32 & q == 0) by (bit_vector);
}

/// A single right is shown by its name, and no right at all as `none`.
pub proof fn law_a_right_is_shown_by_its_name(i: int)
    requires
        0 <= i < 5,
    ensures
        right(i).text() == right_name(i),
        Rights::none().text() == "none"@,
{
    assert forall|j: int| 0 <= j < 5 implies (#[trigger] right(i).contains(right(j)) <==> i == j)
        && !Rights::none().contains(right(j)) by {
        lemma_union_has(Rights::none(), i, j);
    }
    assert(right(i).contains(right(0)) <==> i == 0);
    assert(right(i).contains(right(1)) <==> i == 1);
    assert(right(i).contains(right(2)) <==> i == 2);
    assert(right(i).contains(right(3)) <==> i == 3);
    assert(right(i).contains(right(4)) <==> i == 4);
    assert(right(i).names() =~= seq![right_name(i)]);
    assert(Rights::none().names() =~= Seq::empty());
}

/// One more right adds its name at the end, behind a bar, if it comes after those
/// already there in the order of the rights.
pub proof fn law_one_more_right_adds_its_name(a: Rights, i: int, has: int)
    requires
        0 <= has < i < 5,
        a.contains(right(has)),
        forall|j: int| i <= j < 5 ==> !(#[trigger] a.contains(right(j))),
    ensures
        a.union(right(i)).text() == a.text() + "|"@ + right_name(i),
{
    let both = a.union(right(i));
    assert forall|j: int| 0 <= j < 5 implies (#[trigger] both.contains(right(j)) <==> a.contains(
        right(j),
    ) || i == j) by {
        lemma_union_has(a, i, j);
    }
    assert(both.contains(right(0)) <==> a.contains(right(0)) || i == 0);
    assert(both.contains(right(1)) <==> a.contains(right(1)) || i == 1);
    assert(both.contains(right(2)) <==> a.contains(right(2)) || i == 2);
    assert(both.contains(right(3)) <==> a.contains(right(3)) || i == 3);
    assert(both.contains(right(4)) <==> a.contains(right(4)) || i == 4);
    assert(i <= 1 ==> !a.contains(right(1)));
    assert(i <= 2 ==> !a.contains(right(2)));
    assert(i <= 3 ==> !a.contains(right(3)));
    assert(!a.contains(right(4)));
    assert(both.names() =~= a.names().push(right_name(i)));
    assert(both.names().drop_last() =~= a.names());
    assert(a.names().len() > 0);
}

/// Nothing but the rights decides what is shown: sets that agree on each right are
/// shown alike.
pub proof fn law_only_the_rights_are_shown(a: Rights, b: Rights)
    requires
        forall|j: int| 0 <= j < 5 ==> (#[trigger] a.contains(right(j)) <==> b.contains(right(j))),
    ensures
        a.text() == b.text(),
{
    assert(a.contains(right(0)) <==> b.contains(right(0)));
    assert(a.contains(right(1)) <==> b.contains(right(1)));
    assert(a.contains(right(2)) <==> b.contains(right(2)));
    assert(a.contains(right(3)) <==> b.contains(right(3)));
    assert(a.contains(right(4)) <==> b.contains(right(4)));
    assert(a.names() =~= b.names());
}

/// A capability is shown by its object and, in brackets, its rights.
pub proof fn law_a_capability_is_shown_by_object_and_rights(cap: Capability)
    ensures
        shows(cap.text(), ""@, cap.object.text()),
        cap.object.text().is_prefix_of(cap.text()),
        shows(cap.text(), " ["@, cap.rights.text()),
        "]"@.is_suffix_of(cap.text()),
{
    reveal_strlit("");
    reveal_strlit(" [");
    reveal_strlit("]");
    let line = cap.text();
    lemma_shows(
        line,
        Seq::empty(),
        ""@,
        cap.object.text(),
        " ["@ + cap.rights.text() + "]"@,
    );
    lemma_shows(line, cap.object.text(), " ["@, cap.rights.text(), "]"@);
    lemma_suffix(line, "]"@);
    assert(line.subrange(0, cap.object.text().len() as int) =~= cap.object.text());
}

// -- the map ------------------------------------------------------------------

/// The line of a slot shows its number and its capability, and marks what belongs
/// to the address space.
pub proof fn law_a_slot_line_names_its_capability(slot: CapSlot, cap: Capability)
    ensures
        ({
            let line = crate::console::slot_text(slot, cap);
            &&& shows(line, "    slot "@, crate::text::decimal(slot as nat))
            &&& shows(line, ": "@, cap.text())
            &&& cap.object is Region <==> " <- address space"@.is_suffix_of(line)
            &&& !(cap.object is Region) ==> cap.text().is_suffix_of(line)
        }),
{
    reveal_strlit("");
    reveal_strlit(": ");
    reveal_strlit(" <- address space");
    let line = crate::console::slot_text(slot, cap);
    let note = if cap.object is Region {
        " <- address space"@
    } else {
        ""@
    };
    let start = "    slot "@ + crate::text::decimal(slot as nat);
    lemma_shows(
        line,
        Seq::empty(),
        "    slot "@,
        crate::text::decimal(slot as nat),
        ": "@ + cap.text() + note,
    );
    lemma_shows(line, start, ": "@, cap.text(), note);
    lemma_suffix(line, note);
    if !(cap.object is Region) {
        assert(line =~= (start + ": "@) + cap.text());
        lemma_suffix(line, cap.text());
        reveal_strlit("]");
        assert(cap.text()[cap.text().len() - 1] == ']');
        assert(line[line.len() - 1] == ']');
        if " <- address space"@.is_suffix_of(line) {
            assert(line.subrange(line.len() - 17, line.len() as int)[16] == 'e');
        }
    }
}

/// The live slots of a table below a number.
pub open spec fn live_below(table: TableView, below: nat) -> Set<CapSlot> {
    Set::new(|s: CapSlot| s < below && table.slots.contains_key(s))
}

/// How many lines the slots below a number take, and where each stands.
proof fn lemma_slot_lines(table: TableView, below: nat, slot: CapSlot)
    requires
        below <= u32::MAX,
    ensures
        live_below(table, below).finite(),
        crate::console::slots_text(table, below).len() == live_below(table, below).len(),
        slot < below && table.slots.contains_key(slot) ==> {
            &&& live_below(table, slot as nat).len() < crate::console::slots_text(
                table,
                below,
            ).len()
            &&& crate::console::slots_text(table, below)[live_below(
                table,
                slot as nat,
            ).len() as int] == crate::console::slot_text(slot, table.slots[slot].cap)
        },
    decreases below,
{
    let all = live_below(table, below);
    if below == 0 {
        assert(all =~= Set::empty());
    } else {
        let last = (below - 1) as nat;
        let top = last as CapSlot;
        let before = live_below(table, last);
        lemma_slot_lines(table, last, slot);
        if table.slots.contains_key(top) {
            assert(all =~= before.insert(top));
        } else {
            assert(all =~= before);
        }
        if slot == top {
            assert(live_below(table, slot as nat) =~= before);
        }
    }
}

/// A task is shown with exactly what it holds: its number and its name, and below
/// them one line for each live slot, in the order of the slots. A task that holds
/// nothing is shown to hold nothing.
pub proof fn law_a_task_is_shown_with_what_it_holds(task: TaskView, slot: CapSlot)
    requires
        task.caps.wf(),
    ensures
        ({
            let lines = crate::console::task_text(task);
            let held = task.caps.slots.dom();
            &&& shows(lines[0], "task#"@, crate::text::decimal(task.id as nat))
            &&& (" "@ + task.name).is_suffix_of(lines[0])
            &&& held.len() > 0 ==> lines.len() == 1 + held.len()
            &&& held.len() == 0 ==> lines.len() == 2 && lines[1]
                == "    (no capabilities: cannot touch any kernel object)"@
            &&& task.caps.slots.contains_key(slot) ==> lines[1int + live_below(
                task.caps,
                slot as nat,
            ).len()] == crate::console::slot_text(slot, task.caps.slots[slot].cap)
        }),
{
    reveal_strlit(" ");
    let lines = crate::console::task_text(task);
    let number = crate::text::decimal(task.id as nat);
    let held = task.caps.slots.dom();
    lemma_shows(lines[0], Seq::empty(), "task#"@, number, " "@ + task.name);
    assert(lines[0] =~= ("task#"@ + number) + (" "@ + task.name));
    lemma_suffix(lines[0], " "@ + task.name);
    lemma_slot_lines(task.caps, task.caps.next, slot);
    assert(live_below(task.caps, task.caps.next) =~= held);
    if held.len() == 0 {
        assert(task.caps.slots =~= Map::empty());
    } else {
        assert(task.caps.slots != Map::<CapSlot, CapEntry>::empty()) by {
            if task.caps.slots == Map::<CapSlot, CapEntry>::empty() {
                assert(held =~= Set::empty());
            }
        }
    }
}

/// The map shows the tasks one after the other, in order, under its title and
/// with a blank line at the end.
pub proof fn law_the_map_shows_the_tasks_in_order(k: KernelView, count: int)
    requires
        0 <= count <= k.tasks.len(),
    ensures
        ({
            let lines = crate::console::map_text(k);
            let first = crate::console::tasks_text(k.tasks.take(count));
            let title = "== address spaces and capabilities =="@;
            &&& lines[0] == title
            &&& lines.last() == ""@
            &&& lines.subrange(1, 1int + first.len()) == first
            &&& count < k.tasks.len() ==> lines.subrange(
                1int + first.len(),
                1int + first.len() + crate::console::task_text(k.tasks[count]).len(),
            ) == crate::console::task_text(k.tasks[count])
            &&& count == k.tasks.len() ==> lines.len() == first.len() + 2
            &&& count == 0 ==> first.len() == 0
        }),
{
    let lines = crate::console::map_text(k);
    let all = crate::console::tasks_text(k.tasks);
    let first = crate::console::tasks_text(k.tasks.take(count));
    assert(k.tasks.take(k.tasks.len() as int) =~= k.tasks);
    lemma_tasks_prefix(k.tasks, count, k.tasks.len() as int);
    assert(lines.subrange(1, 1int + first.len()) =~= first) by {
        assert(first =~= all.take(first.len() as int));
    }
    if count < k.tasks.len() {
        let next = crate::console::task_text(k.tasks[count]);
        let more = crate::console::tasks_text(k.tasks.take(count + 1));
        assert(k.tasks.take(count + 1).drop_last() =~= k.tasks.take(count));
        lemma_tasks_prefix(k.tasks, count + 1, k.tasks.len() as int);
        assert(more == first + next);
        assert(lines.subrange(1int + first.len(), 1int + first.len() + next.len()) =~= next) by {
            assert(more =~= all.take(more.len() as int));
            assert forall|i: int| 0 <= i < next.len() implies lines[1int + first.len() + i]
                == next[i] by {
                assert(more[first.len() + i] == next[i]);
                assert(all[first.len() + i] == more[first.len() + i]);
            }
        }
    }
}

/// The lines of the first tasks come first.
proof fn lemma_tasks_prefix(tasks: Seq<TaskView>, first: int, count: int)
    requires
        0 <= first <= count <= tasks.len(),
    ensures
        crate::console::tasks_text(tasks.take(first)).is_prefix_of(
            crate::console::tasks_text(tasks.take(count)),
        ),
    decreases count - first,
{
    if first < count {
        lemma_tasks_prefix(tasks, first, count - 1);
        assert(tasks.take(count).drop_last() =~= tasks.take(count - 1));
    }
}

// -- the summary --------------------------------------------------------------

/// Whether a line of some lines is the one with a name, and shows a number in
/// decimal in the column behind it.
pub open spec fn line_says(lines: Seq<Seq<char>>, i: int, name: Seq<char>, n: nat) -> bool {
    &&& 0 <= i < lines.len()
    &&& lines[i] == crate::text::pad_right(name, 18) + crate::text::decimal(n)
    &&& forall|j: int|
        0 <= j < lines.len() && name.is_prefix_of(#[trigger] lines[j]) ==> j == i
}

/// Whether the line with a name, and only that one, shows a number.
pub open spec fn says(lines: Seq<Seq<char>>, name: Seq<char>, n: nat) -> bool {
    exists|i: int| #[trigger] line_says(lines, i, name, n)
}

/// What the lines of a summary begin with.
proof fn lemma_summary_openings(report: RunReport)
    ensures
        ({
            let lines = crate::console::summary_text(report);
            &&& lines.len() == if report.deadlocked {
                10nat
            } else {
                9nat
            }
            &&& forall|j: int|
                0 <= j < lines.len() ==> (#[trigger] lines[j]).len() >= 3 && (lines[j][0], lines[j][1],
                lines[j][2]) == opening(j)
            &&& lines[6].len() >= 8 && lines[6][7] == 'r'
            &&& lines[7].len() >= 8 && lines[7][7] == 'w'
        }),
{
    reveal_strlit("== summary ==");
    reveal_strlit("ops executed      ");
    reveal_strlit("context switches  ");
    reveal_strlit("final tick        ");
    reveal_strlit("IPC rendezvous    ");
    reveal_strlit("cap transfers     ");
    reveal_strlit("memory reads      ");
    reveal_strlit("memory writes     ");
    reveal_strlit("denied syscalls   ");
    reveal_strlit("note: run ended with threads still blocked (no progress possible)");
}

/// The first characters of the lines of a summary.
spec fn opening(j: int) -> (char, char, char) {
    if j == 0 {
        ('=', '=', ' ')
    } else if j == 1 {
        ('o', 'p', 's')
    } else if j == 2 {
        ('c', 'o', 'n')
    } else if j == 3 {
        ('f', 'i', 'n')
    } else if j == 4 {
        ('I', 'P', 'C')
    } else if j == 5 {
        ('c', 'a', 'p')
    } else if j == 6 {
        ('m', 'e', 'm')
    } else if j == 7 {
        ('m', 'e', 'm')
    } else if j == 8 {
        ('d', 'e', 'n')
    } else {
        ('n', 'o', 't')
    }
}

/// How a line of a summary says its number.
proof fn lemma_line_says(report: RunReport, i: int, name: Seq<char>, padded: Seq<char>, n: nat)
    requires
        1 <= i <= 8,
        name.len() >= 8,
        name.len() <= 18,
        (name[0], name[1], name[2]) == opening(i),
        i == 6 ==> name[7] == 'r',
        i == 7 ==> name[7] == 'w',
        padded =~= crate::text::pad_right(name, 18),
        crate::console::summary_text(report)[i] == padded + crate::text::decimal(n),
    ensures
        line_says(crate::console::summary_text(report), i, name, n),
        says(crate::console::summary_text(report), name, n),
{
    let lines = crate::console::summary_text(report);
    lemma_summary_openings(report);
    assert forall|j: int| 0 <= j < lines.len() && name.is_prefix_of(
        #[trigger] lines[j],
    ) implies j == i by {
        let start = lines[j].subrange(0, name.len() as int);
        assert(start == name);
        assert(start[0] == lines[j][0] && start[1] == lines[j][1] && start[2] == lines[j][2]);
        assert(start[7] == lines[j][7]);
        assert(opening(j) == opening(i));
    }
    assert(line_says(lines, i, name, n));
}

/// The summary names every count of the report: the line with the name of a count,
/// and no other, shows that count. It ends with a note if and only if the run was a
/// deadlock.
pub proof fn law_the_summary_names_every_count(report: RunReport)
    ensures
        ({
            let lines = crate::console::summary_text(report);
            let note = "note: run ended with threads still blocked (no progress possible)"@;
            &&& lines[0] == "== summary =="@
            &&& says(lines, "ops executed"@, report.ops_executed as nat)
            &&& says(lines, "context switches"@, report.context_switches as nat)
            &&& says(lines, "final tick"@, report.final_tick as nat)
            &&& says(lines, "IPC rendezvous"@, report.rendezvous as nat)
            &&& says(lines, "cap transfers"@, report.cap_transfers as nat)
            &&& says(lines, "memory reads"@, report.mem_reads as nat)
            &&& says(lines, "memory writes"@, report.mem_writes as nat)
            &&& says(lines, "denied syscalls"@, report.denials as nat)
            &&& lines.contains(note) <==> report.deadlocked
            &&& report.deadlocked ==> lines.last() == note
        }),
{
    lemma_note_line(report);
    lemma_ops_line(report);
    lemma_switches_line(report);
    lemma_tick_line(report);
    lemma_rendezvous_line_says(report);
    lemma_transfers_line(report);
    lemma_reads_line(report);
    lemma_writes_line(report);
    lemma_denials_line(report);
}

/// The title and the note of a summary.
proof fn lemma_note_line(report: RunReport)
    ensures
        ({
            let lines = crate::console::summary_text(report);
            let note = "note: run ended with threads still blocked (no progress possible)"@;
            &&& lines[0] == "== summary =="@
            &&& lines.contains(note) <==> report.deadlocked
            &&& report.deadlocked ==> lines.last() == note
        }),
{
    let lines = crate::console::summary_text(report);
    let note = "note: run ended with threads still blocked (no progress possible)"@;
    lemma_summary_openings(report);
    assert(note[0] == 'n') by {
        reveal_strlit("note: run ended with threads still blocked (no progress possible)");
    }
    if report.deadlocked {
        assert(lines[9] == note);
    } else if lines.contains(note) {
        let j = choose|j: int| 0 <= j < lines.len() && lines[j] == note;
        assert(lines[j][0] == opening(j).0);
    }
}

/// One line of the summary.
proof fn lemma_ops_line(report: RunReport)
    ensures
        says(crate::console::summary_text(report), "ops executed"@, report.ops_executed as nat),
{
    reveal_strlit("ops executed");
    reveal_strlit("ops executed      ");
    lemma_line_says(report, 1, "ops executed"@, "ops executed      "@, report.ops_executed as nat);
}

/// One line of the summary.
proof fn lemma_switches_line(report: RunReport)
    ensures
        says(crate::console::summary_text(report), "context switches"@, report.context_switches as nat),
{
    reveal_strlit("context switches");
    reveal_strlit("context switches  ");
    lemma_line_says(report, 2, "context switches"@, "context switches  "@, report.context_switches as nat);
}

/// One line of the summary.
proof fn lemma_tick_line(report: RunReport)
    ensures
        says(crate::console::summary_text(report), "final tick"@, report.final_tick as nat),
{
    reveal_strlit("final tick");
    reveal_strlit("final tick        ");
    lemma_line_says(report, 3, "final tick"@, "final tick        "@, report.final_tick as nat);
}

/// One line of the summary.
proof fn lemma_rendezvous_line_says(report: RunReport)
    ensures
        says(crate::console::summary_text(report), "IPC rendezvous"@, report.rendezvous as nat),
{
    reveal_strlit("IPC rendezvous");
    reveal_strlit("IPC rendezvous    ");
    lemma_line_says(report, 4, "IPC rendezvous"@, "IPC rendezvous    "@, report.rendezvous as nat);
}

/// One line of the summary.
proof fn lemma_transfers_line(report: RunReport)
    ensures
        says(crate::console::summary_text(report), "cap transfers"@, report.cap_transfers as nat),
{
    reveal_strlit("cap transfers");
    reveal_strlit("cap transfers     ");
    lemma_line_says(report, 5, "cap transfers"@, "cap transfers     "@, report.cap_transfers as nat);
}

/// One line of the summary.
proof fn lemma_reads_line(report: RunReport)
    ensures
        says(crate::console::summary_text(report), "memory reads"@, report.mem_reads as nat),
{
    reveal_strlit("memory reads");
    reveal_strlit("memory reads      ");
    lemma_line_says(report, 6, "memory reads"@, "memory reads      "@, report.mem_reads as nat);
}

/// One line of the summary.
proof fn lemma_writes_line(report: RunReport)
    ensures
        says(crate::console::summary_text(report), "memory writes"@, report.mem_writes as nat),
{
    reveal_strlit("memory writes");
    reveal_strlit("memory writes     ");
    lemma_line_says(report, 7, "memory writes"@, "memory writes     "@, report.mem_writes as nat);
}

/// One line of the summary.
proof fn lemma_denials_line(report: RunReport)
    ensures
        says(crate::console::summary_text(report), "denied syscalls"@, report.denials as nat),
{
    reveal_strlit("denied syscalls");
    reveal_strlit("denied syscalls   ");
    lemma_line_says(report, 8, "denied syscalls"@, "denied syscalls   "@, report.denials as nat);
}

/// What the line with a name says is one number only.
proof fn lemma_says_one(lines: Seq<Seq<char>>, name: Seq<char>, a: nat, b: nat)
    requires
        says(lines, name, a),
        says(lines, name, b),
    ensures
        a == b,
{
    let i = choose|i: int| #[trigger] line_says(lines, i, name, a);
    let j = choose|j: int| #[trigger] line_says(lines, j, name, b);
    let padded = crate::text::pad_right(name, 18);
    assert(name.is_prefix_of(lines[j])) by {
        assert(lines[j].subrange(0, name.len() as int) =~= name);
    }
    assert(i == j);
    if a != b {
        crate::text::law_different_numbers_have_different_numerals(a, b);
        assert(lines[i].skip(padded.len() as int) =~= crate::text::decimal(a));
        assert(lines[i].skip(padded.len() as int) =~= crate::text::decimal(b));
    }
}

/// Different reports have different summaries.
pub proof fn law_different_reports_have_different_summaries(a: RunReport, b: RunReport)
    requires
        a != b,
    ensures
        crate::console::summary_text(a) != crate::console::summary_text(b),
{
    let (x, y) = (crate::console::summary_text(a), crate::console::summary_text(b));
    if x == y {
        law_the_summary_names_every_count(a);
        law_the_summary_names_every_count(b);
        lemma_says_one(x, "ops executed"@, a.ops_executed as nat, b.ops_executed as nat);
        lemma_says_one(
            x,
            "context switches"@,
            a.context_switches as nat,
            b.context_switches as nat,
        );
        lemma_says_one(x, "final tick"@, a.final_tick as nat, b.final_tick as nat);
        lemma_says_one(x, "IPC rendezvous"@, a.rendezvous as nat, b.rendezvous as nat);
        lemma_says_one(x, "cap transfers"@, a.cap_transfers as nat, b.cap_transfers as nat);
        lemma_says_one(x, "memory reads"@, a.mem_reads as nat, b.mem_reads as nat);
        lemma_says_one(x, "memory writes"@, a.mem_writes as nat, b.mem_writes as nat);
        lemma_says_one(x, "denied syscalls"@, a.denials as nat, b.denials as nat);
    }
}

// -- a whole session ----------------------------------------------------------

/// The parts of a session.
proof fn lemma_session(before: KernelView, after: KernelView, report: RunReport)
    ensures
        ({
            let lines = crate::console::session_text(before, after, report);
            let map = crate::console::map_text(before);
            let at = map.len() as int;
            let count = after.trace.len() as int;
            &&& lines.take(at) == map
            &&& lines[at] == "== trace =="@
            &&& forall|i: int|
                0 <= i < count ==> #[trigger] lines[at + 1 + i] == after.trace[i].text()
            &&& lines[at + 1 + count] == ""@
            &&& lines.skip(at + 2 + count) == crate::console::summary_text(report)
            &&& lines.len() == at + 2 + count + crate::console::summary_text(report).len()
        }),
{
    let lines = crate::console::session_text(before, after, report);
    let map = crate::console::map_text(before);
    let at = map.len() as int;
    let count = after.trace.len() as int;
    assert(lines.take(at) =~= map);
    assert(lines.skip(at + 2 + count) =~= crate::console::summary_text(report));
}

/// A session shows everything in order: the map of the machine before the run, the
/// line of each event of the trace after it, and the summary of the report of that
/// run. Nothing else is shown, and there is only one way to show it.
pub proof fn law_a_session_shows_everything_in_order(
    lines: Seq<Seq<char>>,
    k: KernelView,
    max_ops: nat,
    report: RunReport,
    i: int,
)
    requires
        crate::console::shows_run(lines, k, max_ops),
        crate::report::reports(report, k, max_ops),
    ensures
        ({
            let trace = k.run(max_ops).trace;
            let map = crate::console::map_text(k);
            let at = map.len() as int;
            let count = trace.len() as int;
            &&& lines.take(at) == map
            &&& lines[at] == "== trace =="@
            &&& 0 <= i < count ==> lines[at + 1 + i] == trace[i].text()
            &&& lines[at + 1 + count] == ""@
            &&& lines.skip(at + 2 + count) == crate::console::summary_text(report)
        }),
{
    let n = k.run(max_ops);
    let shown = choose|shown: RunReport| #[trigger]
        crate::kernel::summarizes(shown, n, k.trace.len(), k.ops_run(max_ops)) && lines
            == crate::console::session_text(k, n, shown);
    assert(shown == report);
    lemma_session(k, n, report);
}

/// A session of a kernel that has not run before counts its dispatches: the line
/// of the context switches shows how many are on record, and so does the line of
/// the ops executed and that of the final tick.
pub proof fn law_a_session_counts_its_dispatches(
    lines: Seq<Seq<char>>,
    k: KernelView,
    max_ops: nat,
)
    requires
        k.sound(),
        k.run_safe(max_ops),
        k.trace.len() == 0,
        k.clock == 0,
        k.sched.switches == 0,
        crate::console::shows_run(lines, k, max_ops),
    ensures
        ({
            let trace = k.run(max_ops).trace;
            let count = crate::report::places(trace, 0, |e: EventView| e is Dispatch).len();
            let map = crate::console::map_text(k);
            let summary = lines.skip(2int + map.len() + trace.len());
            &&& says(summary, "context switches"@, count)
            &&& says(summary, "ops executed"@, count)
            &&& says(summary, "final tick"@, count)
        }),
{
    let n = k.run(max_ops);
    let report = choose|report: RunReport| #[trigger]
        crate::kernel::summarizes(report, n, k.trace.len(), k.ops_run(max_ops)) && lines
            == crate::console::session_text(k, n, report);
    crate::report::law_the_report_says_how_long_it_took(k, max_ops, report);
    lemma_session(k, n, report);
    law_the_summary_names_every_count(report);
}

/// What a task can do with a slot is said as it is: who, which slot, and for
/// reading and writing whether it is allowed.
pub proof fn law_access_is_said_as_it_is(
    who: Seq<char>,
    slot: CapSlot,
    can_read: bool,
    can_write: bool,
)
    ensures
        ({
            let line = crate::console::access_text(who, slot, can_read, can_write);
            &&& who.is_prefix_of(line)
            &&& shows(line, " slot "@, crate::text::decimal(slot as nat))
            &&& can_read ==> shows(line, ": read "@, "ok"@)
            &&& !can_read ==> shows(line, ": read "@, "denied"@)
            &&& can_write ==> "write ok"@.is_suffix_of(line)
            &&& !can_write ==> "write denied"@.is_suffix_of(line)
        }),
{
    reveal_strlit(": ");
    reveal_strlit(", ");
    reveal_strlit("read ok");
    reveal_strlit("read denied");
    reveal_strlit(": read ");
    reveal_strlit("ok");
    reveal_strlit("denied");
    let line = crate::console::access_text(who, slot, can_read, can_write);
    let padded = crate::text::pad_right(who, 7);
    let number = crate::text::decimal(slot as nat);
    let read = if can_read {
        "read ok"@
    } else {
        "read denied"@
    };
    let how = if can_read {
        "ok"@
    } else {
        "denied"@
    };
    let write = if can_write {
        "write ok"@
    } else {
        "write denied"@
    };
    assert(": "@ + read =~= ": read "@ + how);
    let start = padded + " slot "@ + number;
    assert(line =~= start + (": "@ + read) + ", "@ + write);
    lemma_shows(line, padded, " slot "@, number, (": "@ + read) + ", "@ + write);
    lemma_shows(line, start, ": read "@, how, ", "@ + write);
    assert(line =~= (start + (": "@ + read) + ", "@) + write);
    lemma_suffix(line, write);
    assert(line.subrange(0, who.len() as int) =~= who);
}

} // verus!
