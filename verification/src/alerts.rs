//! A thread's alert is the event by which the thread itself cancels its waits. The daemon makes it and
//! never sets it: a thread that waits by itself would take that for a call of its user.
use crate::disconnect::{end_signalled, ends_signalled, info_events, thread_forgotten, with_idle};
use crate::pipes::{is_apart, leaves_unset, readers_woken, PolledRead};
use crate::select::{apc_acknowledged, apc_delivered, waits_on, SelectPlan, SelectRequest, WaitJob};
use crate::state::{
    with_signals, Action, AsyncPipeRead, EventLoop, ExitEvent, InfoHandle, SyncObject,
};
use crate::table::{enumerates, list_of};
use vstd::prelude::*;

verus! {

/// Setting the events of handles leaves an event alone that no handle stands for.
pub proof fn lemma_signals_spare_alert(
    objects: Map<(u32, u32), SyncObject>,
    out: Seq<Action>,
    events: Seq<(u32, u32)>,
    alert: i32,
)
    requires
        forall|k: (u32, u32)| #[trigger] objects.contains_key(k) ==> objects[k].fd != alert,
    ensures
        leaves_unset(out, with_signals(objects, out, events), alert),
    decreases events.len(),
{
    if events.len() == 0 {
        assert(out.take(out.len() as int) =~= out);
    } else {
        lemma_signals_spare_alert(objects, out, events.drop_last(), alert);
        let before = with_signals(objects, out, events.drop_last());
        let after = with_signals(objects, out, events);
        assert(after.take(out.len() as int) =~= before.take(out.len() as int));
        assert forall|i: int| out.len() <= i < after.len() implies #[trigger] after[i] != (
        Action::SetEvent { object: alert }) by {
            if i < before.len() {
                assert(after[i] == before[i]);
            }
        }
    }
}

/// Neither the delivery of a system call to a thread nor its acknowledgement sets an alert.
pub proof fn lemma_system_call_spares_alert(
    before: EventLoop,
    delivered: EventLoop,
    acked: EventLoop,
    fd: i32,
    handle: u32,
    alert: i32,
)
    requires
        apc_delivered(before, delivered, fd, handle),
        apc_acknowledged(delivered, acked, fd, handle),
        is_apart(before.sync, alert),
    ensures
        leaves_unset(before.outbox@, delivered.outbox@, alert),
        leaves_unset(before.outbox@, acked.outbox@, alert),
        acked.sync.alerts@ == before.sync.alerts@,
{
    let n = before.outbox@.len() as int;
    assert(delivered.outbox@.take(n) =~= before.outbox@);
    lemma_signals_spare_alert(
        delivered.sync.objects@,
        delivered.outbox@,
        list_of(delivered.sync.deferred@, fd),
        alert,
    );
    lemma_unset_twice(before.outbox@, delivered.outbox@, acked.outbox@, alert);
}

proof fn lemma_unset_twice(a: Seq<Action>, b: Seq<Action>, c: Seq<Action>, alert: i32)
    requires
        leaves_unset(a, b, alert),
        leaves_unset(b, c, alert),
    ensures
        leaves_unset(a, c, alert),
{
    let m = b.len() as int;
    assert(c.take(a.len() as int) =~= c.take(m).take(a.len() as int));
    assert forall|i: int| a.len() <= i < c.len() implies #[trigger] c[i] != (Action::SetEvent {
        object: alert,
    }) by {
        if i < m {
            assert(c.take(m)[i] == c[i]);
        }
    }
}

/// No alert is set for the reads of pipes that have ended.
pub proof fn lemma_reads_spare_alert(
    objects: Map<(u32, u32), SyncObject>,
    out: Seq<Action>,
    reads: Seq<AsyncPipeRead>,
    got: Seq<PolledRead>,
    alert: i32,
)
    requires
        reads.len() == got.len(),
        forall|k: (u32, u32)| #[trigger] objects.contains_key(k) ==> objects[k].fd != alert,
    ensures
        leaves_unset(out, readers_woken(objects, out, reads, got), alert),
    decreases reads.len(),
{
    if reads.len() == 0 {
        assert(out.take(out.len() as int) =~= out);
    } else {
        lemma_reads_spare_alert(objects, out, reads.skip(1), got.skip(1), alert);
        let before = readers_woken(objects, out, reads.skip(1), got.skip(1));
        let after = readers_woken(objects, out, reads, got);
        assert(after.take(out.len() as int) =~= before.take(out.len() as int));
        assert forall|i: int| out.len() <= i < after.len() implies #[trigger] after[i] != (
        Action::SetEvent { object: alert }) by {
            if i < before.len() {
                assert(after[i] == before[i]);
            }
        }
    }
}

/// A thread that begins to wait has no alert set for it, and the daemon's own wait is ended through
/// another event.
pub proof fn lemma_wait_spares_alert(
    before: EventLoop,
    after: EventLoop,
    fd: i32,
    req: SelectRequest,
    plan: SelectPlan,
    dup_fd: Option<i32>,
    now: u64,
    end: u64,
    job: Option<WaitJob>,
    alert: i32,
)
    requires
        waits_on(before, after, fd, req, plan, dup_fd, now, end, job),
        is_apart(before.sync, alert),
        is_apart(after.sync, alert),
        alert >= 0,
        forall|p: u32| #[trigger]
            before.sync.idle_events@.contains_key(p) ==> before.sync.idle_events@[p] != alert,
    ensures
        leaves_unset(before.outbox@, after.outbox@, alert),
        job is Some ==> job->Some_0.interrupt != alert,
        after.sync.alerts@ == before.sync.alerts@,
{
    let n = before.outbox@.len() as int;
    assert(after.outbox@.take(n) =~= before.outbox@);
    if job is Some {
        assert(after.sync.interrupts@.contains_key(fd) || job->Some_0.interrupt == -1);
    }
}

/// The end of a thread sets the events of those that wait for it, and no alert.
pub proof fn lemma_thread_end_spares_alert(
    before: EventLoop,
    after: EventLoop,
    fd: i32,
    tid: u32,
    alert: i32,
)
    requires
        thread_forgotten(before, after, fd, tid),
        forall|i: int|
            0 <= i < list_of(before.sync.thread_exit@, fd).len()
                ==> #[trigger] list_of(before.sync.thread_exit@, fd)[i].object != alert,
    ensures
        leaves_unset(before.outbox@, after.outbox@, alert),
{
    lemma_ends_spare_alert(before.outbox@, list_of(before.sync.thread_exit@, fd), alert);
}

/// The end of a process sets the events of those that wait for its start, for it to be idle and for its
/// end, and no alert.
pub proof fn lemma_process_end_spares_alert(before: EventLoop, after: EventLoop, pid: u32, alert: i32)
    requires
        end_signalled(before, after, pid),
        is_apart(before.sync, alert),
        before.sync.idle_events@.contains_key(pid) ==> before.sync.idle_events@[pid] != alert,
        forall|i: int|
            0 <= i < list_of(before.sync.process_exit@, pid).len()
                ==> #[trigger] list_of(before.sync.process_exit@, pid)[i].object != alert,
    ensures
        leaves_unset(before.outbox@, after.outbox@, alert),
{
    let started = before.objects.processes@.contains_key(pid)
        && before.objects.processes@[pid].startup_done;
    let ends = list_of(before.sync.process_exit@, pid);
    let idle = before.sync.idle_events@;
    let s = choose|s: Seq<(u32, InfoHandle)>| #[trigger]
        enumerates(s, before.objects.info_handles@) && after.outbox@ == ends_signalled(
            with_idle(
                with_signals(
                    before.sync.objects@,
                    before.outbox@,
                    if started {
                        Seq::empty()
                    } else {
                        info_events(s, pid)
                    },
                ),
                idle,
                pid,
            ),
            ends,
        );
    let events = if started {
        Seq::empty()
    } else {
        info_events(s, pid)
    };
    let one = with_signals(before.sync.objects@, before.outbox@, events);
    let two = with_idle(one, idle, pid);
    lemma_signals_spare_alert(before.sync.objects@, before.outbox@, events, alert);
    assert(two.take(one.len() as int) =~= one);
    lemma_ends_spare_alert(two, ends, alert);
    lemma_unset_twice(before.outbox@, one, two, alert);
    lemma_unset_twice(before.outbox@, two, after.outbox@, alert);
}

proof fn lemma_ends_spare_alert(out: Seq<Action>, s: Seq<ExitEvent>, alert: i32)
    requires
        forall|i: int| 0 <= i < s.len() ==> #[trigger] s[i].object != alert,
    ensures
        leaves_unset(out, ends_signalled(out, s), alert),
    decreases s.len(),
{
    if s.len() == 0 {
        assert(out.take(out.len() as int) =~= out);
    } else {
        assert forall|i: int| 0 <= i < s.drop_last().len() implies #[trigger] s.drop_last()[i].object
            != alert by {
            assert(s[i].object != alert);
        }
        lemma_ends_spare_alert(out, s.drop_last(), alert);
        let before = ends_signalled(out, s.drop_last());
        let after = ends_signalled(out, s);
        assert(s[s.len() - 1].object != alert);
        assert(after.take(before.len() as int) =~= before);
        lemma_unset_twice(out, before, after, alert);
    }
}

} // verus!
