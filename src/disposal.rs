use vstd::prelude::*;
use crate::message::ReadError;

verus! {

/// What is printed for each collected message.
#[derive(Clone, Copy, Debug, PartialEq, Eq, Structural)]
pub enum PrintMode {
    /// The body alone.
    Body,
    /// A full record: body, receipt handle, checksum, identity, attributes.
    FullRecord,
}

/// Whether, and when, collected messages are deleted from the source queue.
#[derive(Clone, Copy, Debug, PartialEq, Eq, Structural)]
pub enum DeletePolicy {
    /// Leave them on the queue.
    Keep,
    /// Delete each message once it has been printed and forwarded.
    AfterHandling,
    /// Delete them all first, then print and forward: the queue is
    /// released sooner, but a crash before handling loses messages.
    BeforeHandling,
}

/// Which side effects a run performs.
#[derive(Clone, Copy, Debug, PartialEq, Eq, Structural)]
pub struct DisposalConfig {
    pub print: Option<PrintMode>,
    pub forward: bool,
    pub delete: DeletePolicy,
}

/// The configuration that `disposal_config` builds.
pub open spec fn config_of(print: Option<PrintMode>, forward: bool, drain: bool, drain_first: bool) -> Result<DisposalConfig, ReadError> {
    if print is None && !forward {
        Err(ReadError::NoOutput)
    } else {
        Ok(DisposalConfig {
            print,
            forward,
            delete: if !drain { DeletePolicy::Keep } else if drain_first { DeletePolicy::BeforeHandling } else { DeletePolicy::AfterHandling },
        })
    }
}

/// Builds the side effects of a run: printing as `print` says, forwarding
/// to a destination queue where `forward`, and deleting from the source
/// where `drain`, before handling where `drain_first` too. A run that would
/// neither print nor forward is refused.
pub fn disposal_config(print: Option<PrintMode>, forward: bool, drain: bool, drain_first: bool) -> (r: Result<DisposalConfig, ReadError>)
    ensures
        r == config_of(print, forward, drain, drain_first),
{
    if print.is_none() && !forward {
        return Err(ReadError::NoOutput);
    }
    let delete = if !drain {
        DeletePolicy::Keep
    } else if drain_first {
        DeletePolicy::BeforeHandling
    } else {
        DeletePolicy::AfterHandling
    };
    Ok(DisposalConfig { print, forward, delete })
}

/// One side effect on the collected message at the given index.
#[derive(Clone, Copy, Debug, PartialEq, Eq, Structural)]
pub enum Action {
    /// Print the message (as the configured print mode says).
    Emit(usize),
    /// Send the message's body to the destination queue.
    Forward(usize),
    /// Delete the message from the source queue by its receipt handle.
    Delete(usize),
}

pub open spec fn action_index(a: Action) -> nat {
    match a {
        Action::Emit(i) => i as nat,
        Action::Forward(i) => i as nat,
        Action::Delete(i) => i as nat,
    }
}

/// The side effects of message `i` while it is handled, in order.
pub open spec fn message_steps(i: usize, c: DisposalConfig) -> Seq<Action> {
    (if c.print is Some { seq![Action::Emit(i)] } else { Seq::empty() })
        + (if c.forward { seq![Action::Forward(i)] } else { Seq::empty() })
        + (if c.delete == DeletePolicy::AfterHandling { seq![Action::Delete(i)] } else { Seq::empty() })
}

/// The handling of messages `0..n`, one message after the other.
pub open spec fn handling(n: nat, c: DisposalConfig) -> Seq<Action>
    decreases n,
{
    if n == 0 {
        Seq::empty()
    } else {
        handling((n - 1) as nat, c) + message_steps((n - 1) as usize, c)
    }
}

/// The side effects of a run over `n` collected messages, in order.
pub open spec fn plan_of(n: nat, c: DisposalConfig) -> Seq<Action> {
    if c.delete == DeletePolicy::BeforeHandling {
        Seq::new(n, |i: int| Action::Delete(i as usize)) + handling(n, c)
    } else {
        handling(n, c)
    }
}

/// Lists, in the order they must happen, the side effects of a run over
/// `n` collected messages.
pub fn plan_disposal(n: usize, config: DisposalConfig) -> (r: Vec<Action>)
    ensures
        r@ == plan_of(n as nat, config),
{
    let mut plan: Vec<Action> = Vec::new();
    if config.delete == DeletePolicy::BeforeHandling {
        let mut i: usize = 0;
        while i < n
            invariant
                i <= n,
                plan@ =~= Seq::new(i as nat, |k: int| Action::Delete(k as usize)),
            decreases n - i,
        {
            plan.push(Action::Delete(i));
            i = i + 1;
        }
    }
    let ghost first = plan@;
    assert(first =~= plan_of(n as nat, config).subrange(0, first.len() as int)) by {
        if config.delete == DeletePolicy::BeforeHandling {
            assert(plan_of(n as nat, config).subrange(0, n as int) =~= Seq::new(n as nat, |k: int| Action::Delete(k as usize)));
        }
    }
    let mut i: usize = 0;
    while i < n
        invariant
            i <= n,
            plan@ =~= first + handling(i as nat, config),
        decreases n - i,
    {
        if config.print.is_some() {
            plan.push(Action::Emit(i));
        }
        if config.forward {
            plan.push(Action::Forward(i));
        }
        if config.delete == DeletePolicy::AfterHandling {
            plan.push(Action::Delete(i));
        }
        assert(handling((i + 1) as nat, config) == handling(i as nat, config) + message_steps(i, config));
        i = i + 1;
    }
    if config.delete != DeletePolicy::BeforeHandling {
        assert(first.len() == 0);
    }
    plan
}

proof fn lemma_handling_indices(n: nat, c: DisposalConfig)
    requires
        n <= usize::MAX + 1,
    ensures
        forall|p: int| 0 <= p < handling(n, c).len() ==> action_index(#[trigger] handling(n, c)[p]) < n,
    decreases n,
{
    if n > 0 {
        lemma_handling_indices((n - 1) as nat, c);
        let h = handling((n - 1) as nat, c);
        let m = message_steps((n - 1) as usize, c);
        assert forall|p: int| 0 <= p < handling(n, c).len() implies action_index(#[trigger] handling(n, c)[p]) < n by {
            if p < h.len() {
                assert(handling(n, c)[p] == h[p]);
            } else {
                assert(handling(n, c)[p] == m[p - h.len()]);
            }
        }
    }
}

/// While messages are handled one after the other, a message is forwarded
/// before it is deleted: every forward of message `i` comes before every
/// delete of it.
pub proof fn lemma_handling_forward_first(n: nat, c: DisposalConfig, p: int, q: int, i: usize)
    requires
        n <= usize::MAX + 1,
        0 <= p < handling(n, c).len(),
        0 <= q < handling(n, c).len(),
        handling(n, c)[p] == Action::Forward(i),
        handling(n, c)[q] == Action::Delete(i),
    ensures
        p < q,
    decreases n,
{
    let h = handling((n - 1) as nat, c);
    let m = message_steps((n - 1) as usize, c);
    assert(handling(n, c) == h + m);
    lemma_handling_indices((n - 1) as nat, c);
    if p < h.len() && q < h.len() {
        assert(h[p] == handling(n, c)[p] && h[q] == handling(n, c)[q]);
        lemma_handling_forward_first((n - 1) as nat, c, p, q, i);
    } else if p >= h.len() && q < h.len() {
        assert(m[p - h.len()] == Action::Forward(i));
        assert(h[q] == Action::Delete(i));
        assert(action_index(h[q]) < n - 1);
    } else if p >= h.len() && q >= h.len() {
        assert(m[p - h.len()] == Action::Forward(i));
        assert(m[q - h.len()] == Action::Delete(i));
    }
}

/// Unless deletion was chosen to come first, a run forwards each message
/// before it deletes it: in the plan, a forward of message `i` stands
/// before any delete of message `i`.
pub proof fn lemma_forward_before_delete(n: usize, c: DisposalConfig, p: int, q: int, i: usize)
    requires
        c.delete != DeletePolicy::BeforeHandling,
        0 <= p < plan_of(n as nat, c).len(),
        0 <= q < plan_of(n as nat, c).len(),
        plan_of(n as nat, c)[p] == Action::Forward(i),
        plan_of(n as nat, c)[q] == Action::Delete(i),
    ensures
        p < q,
{
    lemma_handling_forward_first(n as nat, c, p, q, i);
}

/// A run that forwards and deletes has, for each message, both a forward
/// and a delete in its plan.
pub proof fn lemma_plan_forwards_and_deletes(n: usize, c: DisposalConfig, i: usize)
    requires
        c.forward,
        c.delete == DeletePolicy::AfterHandling,
        i < n,
    ensures
        exists|p: int, q: int|
            0 <= p < q < plan_of(n as nat, c).len() && plan_of(n as nat, c)[p] == Action::Forward(i)
                && plan_of(n as nat, c)[q] == Action::Delete(i),
    decreases n,
{
    let h = handling((n - 1) as nat, c);
    let m = message_steps((n - 1) as usize, c);
    assert(plan_of(n as nat, c) == h + m);
    if i == n - 1 {
        let k: int = if c.print is Some { 1 } else { 0 };
        assert(m[k] == Action::Forward(i));
        assert(m[k + 1] == Action::Delete(i));
        assert((h + m)[h.len() + k] == Action::Forward(i));
        assert((h + m)[h.len() + k + 1] == Action::Delete(i));
    } else {
        lemma_plan_forwards_and_deletes((n - 1) as usize, c, i);
        let (p, q) = choose|p: int, q: int|
            0 <= p < q < h.len() && h[p] == Action::Forward(i) && h[q] == Action::Delete(i);
        assert((h + m)[p] == Action::Forward(i) && (h + m)[q] == Action::Delete(i));
    }
}

/// If forwarding message `i` fails at position `p` of the plan, the run
/// stops there, and no delete of message `i` was attempted up to that point.
pub proof fn lemma_failed_forward_keeps_message(n: usize, c: DisposalConfig, p: int, i: usize)
    requires
        c.delete != DeletePolicy::BeforeHandling,
        0 <= p < plan_of(n as nat, c).len(),
        plan_of(n as nat, c)[p] == Action::Forward(i),
    ensures
        forall|q: int| 0 <= q <= p ==> plan_of(n as nat, c)[q] != Action::Delete(i),
{
    assert forall|q: int| 0 <= q <= p implies plan_of(n as nat, c)[q] != Action::Delete(i) by {
        if plan_of(n as nat, c)[q] == Action::Delete(i) {
            lemma_forward_before_delete(n, c, p, q, i);
        }
    }
}

/// The progress of a run through its plan. Each step is attempted only
/// after the step before it succeeded; the first failure ends the run.
pub struct DisposalRun {
    pub plan: Vec<Action>,
    pub next: usize,
    pub failed: bool,
}

impl DisposalRun {
    /// A run that has attempted nothing of `plan` yet.
    pub fn new(plan: Vec<Action>) -> (r: DisposalRun)
        ensures
            r.plan@ == plan@,
            r.next == 0,
            !r.failed,
    {
        DisposalRun { plan, next: 0, failed: false }
    }

    /// The next step to attempt: none once the plan is done or a step failed.
    pub fn next_action(&self) -> (r: Option<Action>)
        ensures
            r == if !self.failed && self.next < self.plan@.len() {
                Some(self.plan@[self.next as int])
            } else {
                None::<Action>
            },
    {
        if !self.failed && self.next < self.plan.len() {
            Some(self.plan[self.next])
        } else {
            None
        }
    }

    /// Records how the step that `next_action` gave went.
    pub fn record_outcome(&mut self, succeeded: bool)
        requires
            !old(self).failed,
            old(self).next < old(self).plan@.len(),
        ensures
            final(self).plan@ == old(self).plan@,
            succeeded ==> final(self).next == old(self).next + 1 && !final(self).failed,
            !succeeded ==> final(self).next == old(self).next && final(self).failed,
    {
        let len = self.plan.len();
        if succeeded && self.next < len {
            self.next = self.next + 1;
        } else {
            self.failed = true;
        }
    }
}

} // verus!
