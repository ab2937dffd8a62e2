//! What callers see of the operations at the centre of the library, in plain values.

use crate::osc133::Scanner;
use crate::osc133_laws;
use crate::osc133_laws::{free, is_end, mark, writes_number};
use crate::session::{views, Action, Packet, Session};
use crate::session_laws;
use crate::workspace::{branches, leaves, with_split, Node, PaneId, Split, Workspace};
use crate::workspace_laws;
use crate::workspace_laws::part_of;
use vstd::prelude::*;

verus! {

/// A client that says hello is sent the kept output of every pane that has any, whole.
pub proof fn a_hello_brings_every_screen(
    s: &mut Session,
    client: u64,
    packet: Packet,
    out: Vec<Action>,
    i: int,
)
    requires
        call_ensures(Session::receive, (s, client, packet), out),
        old(s)@.wf(),
        old(s)@.has_client(client),
        packet matches Packet::Control(c) && c is Hello,
        0 <= i < old(s)@.panes.len(),
        old(s)@.panes[i].buffer.len() > 0,
    ensures
        exists|k: int|
            0 <= k < out@.len() && (#[trigger] out@[k] matches Action::Send {
                client: to,
                packet: Packet::Data { pane, bytes },
            } && to == client && pane == old(s)@.panes[i].id && bytes@ == old(
                s,
            )@.panes[i].buffer),
        final(s)@.panes == old(s)@.panes,
{
    session_laws::every_screen_is_replayed(old(s)@, client, i);
    let want = crate::session::ActionView::Send {
        client,
        packet: crate::session::PacketView::Data {
            pane: old(s)@.panes[i].id,
            bytes: old(s)@.panes[i].buffer,
        },
    };
    assert(views(out@).contains(want));
    let k = choose|k: int| 0 <= k < views(out@).len() && views(out@)[k] == want;
    assert(out@[k]@ == want);
}

proof fn lemma_absent(n: Node, target: PaneId, split: Split, new_id: PaneId, branch_id: u64)
    requires
        !leaves(n).contains(target),
    ensures
        with_split(n, target, split, new_id, branch_id) == n,
    decreases n,
{
    match n {
        Node::Leaf(id) => {
            assert(leaves(n)[0] == id);
        },
        Node::Branch { a, b, .. } => {
            let (la, lb) = (leaves(*a), leaves(*b));
            assert forall|i: int| 0 <= i < la.len() implies la[i] != target by {
                assert(leaves(n)[i] == la[i]);
            }
            assert forall|i: int| 0 <= i < lb.len() implies lb[i] != target by {
                assert(leaves(n)[la.len() + i] == lb[i]);
            }
            lemma_absent(*a, target, split, new_id, branch_id);
            lemma_absent(*b, target, split, new_id, branch_id);
        },
    }
}

/// Splitting a pane of a tree puts the split that was asked for in its place, the pane first and
/// the new one second. It succeeds just where the pane is there, and else changes nothing.
pub proof fn a_leaf_is_split_as_asked(
    n: &mut Node,
    target: PaneId,
    split: Split,
    new_id: PaneId,
    branch_id: u64,
    done: bool,
)
    requires
        call_ensures(Node::split_leaf, (n, target, split, new_id, branch_id), done),
    ensures
        done <==> leaves(*old(n)).contains(target),
        done ==> part_of(
            Node::Branch {
                id: branch_id,
                split,
                ratio: 0x3f00_0000,
                a: Box::new(Node::Leaf(target)),
                b: Box::new(Node::Leaf(new_id)),
            },
            *final(n),
        ),
        done ==> leaves(*final(n)).len() == leaves(*old(n)).len() + 1,
        !done ==> *final(n) == *old(n),
{
    if done {
        workspace_laws::a_split_is_made_as_asked(*old(n), target, split, new_id, branch_id);
        workspace_laws::splits_are_counted(*old(n));
        workspace_laws::splits_are_counted(*final(n));
    } else {
        lemma_absent(*old(n), target, split, new_id, branch_id);
    }
}

/// Splitting in a workspace splits the focused pane as asked, and the new pane has the keyboard.
pub proof fn the_focused_pane_is_split_as_asked(w: &mut Workspace, split: Split, out: ())
    requires
        call_ensures(Workspace::split, (w, split), out),
        old(w)@.wf(),
        old(w)@.active < old(w)@.tabs.len(),
        old(w)@.next_id < u64::MAX - 1,
        leaves(old(w)@.tab().layout).contains(old(w)@.tab().focus),
    ensures
        exists|branch: u64|
            !branches(old(w)@.tab().layout).contains(branch) && #[trigger] part_of(
                Node::Branch {
                    id: branch,
                    split,
                    ratio: 0x3f00_0000,
                    a: Box::new(Node::Leaf(old(w)@.tab().focus)),
                    b: Box::new(Node::Leaf(final(w)@.tab().focus)),
                },
                final(w)@.tab().layout,
            ),
        !leaves(old(w)@.tab().layout).contains(final(w)@.tab().focus),
        final(w)@.active == old(w)@.active,
{
    workspace_laws::splitting_adds_a_pane(old(w)@, split);
}

/// A scanner that reads a whole command reports its exit code, once and as it was written.
pub proof fn scanned_commands_report_their_code(
    s: &mut Scanner,
    bytes: &[u8],
    done: Vec<i32>,
    begin: Seq<u8>,
    printed: Seq<u8>,
    f: Seq<u8>,
    more: Seq<u8>,
    end: Seq<u8>,
    end2: Seq<u8>,
    n: int,
)
    requires
        call_ensures(Scanner::scan, (s, bytes), done),
        old(s)@.state == crate::osc133::State::Ground,
        bytes@ == mark(0x43, begin, end) + printed + mark(0x44, seq![0x3bu8] + f + more, end2),
        free(begin),
        begin.len() <= 59,
        !printed.contains(0x1b),
        writes_number(f, n),
        more.len() == 0 || more[0] == 0x3b,
        free(more),
        f.len() + more.len() <= 58,
        is_end(end),
        is_end(end2),
    ensures
        done@.len() == 1,
        done@[0] == n,
{
    osc133_laws::a_command_reports_its_code(old(s)@, begin, printed, f, more, end, end2, n);
    let v = crate::osc133::codes(done@);
    assert(v == seq![n]);
    assert(v.len() == done@.len());
    assert(v[0] == done@[0] as int);
}

} // verus!
