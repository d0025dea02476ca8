//! A sliding window over conversation history that demotes old items in batches.
use vstd::prelude::*;

use crate::message::{lemma_tool_result_turn, ConversationItem, Message};

verus! {

/// How many items a window of `window` items demotes, in batches of `batch`,
/// from a history of `total` items: the whole batches that fit in the excess
/// over the window.
pub open spec fn demote_count(total: nat, window: nat, batch: nat) -> nat {
    let excess: nat = if total > window { (total - window) as nat } else { 0 };
    (excess / batch) * batch
}

/// The split of `messages` into `(kept, demoted)`: the first `demote_count`
/// items are demoted, and so is the first kept item when it is a tool result
/// whose call was demoted with the batch.
pub open spec fn window_split<T: ConversationItem>(messages: Seq<T>, window: nat, batch: nat) -> (
    Seq<T>,
    Seq<T>,
) {
    let d = demote_count(messages.len(), window, batch);
    if d == 0 {
        (messages, Seq::empty())
    } else if d < messages.len() && messages[d as int].opens_with_tool_result() {
        (messages.skip(d + 1int), messages.take(d + 1int))
    } else {
        (messages.skip(d as int), messages.take(d as int))
    }
}

/// A sliding window that demotes old messages in batches.
///
/// Once the conversation exceeds `window_size` messages, older messages are
/// accumulated until they fill one `batch_size` batch; the entire batch is
/// then demoted at once. This avoids per-message compaction when messages
/// overflow one at a time.
#[derive(Debug, Clone, Copy)]
pub struct BatchedSlidingWindow {
    window_size: usize,
    batch_size: usize,
}

impl BatchedSlidingWindow {
    pub closed spec fn spec_window_size(&self) -> nat {
        self.window_size as nat
    }

    pub closed spec fn spec_batch_size(&self) -> nat {
        self.batch_size as nat
    }

    pub fn new(window_size: usize, batch_size: usize) -> (w: Self)
        ensures
            w.spec_window_size() == window_size,
            w.spec_batch_size() == batch_size,
    {
        Self { window_size, batch_size }
    }

    pub fn window_size(&self) -> (r: usize)
        ensures
            r == self.spec_window_size(),
    {
        self.window_size
    }

    pub fn batch_size(&self) -> (r: usize)
        ensures
            r == self.spec_batch_size(),
    {
        self.batch_size
    }

    /// The number of items demoted from a history of `total` items, before
    /// any orphaned tool result is added.
    pub fn demote_count(&self, total: usize) -> (d: usize)
        requires
            self.spec_batch_size() > 0,
        ensures
            d == demote_count(total as nat, self.spec_window_size(), self.spec_batch_size()),
    {
        let excess = if total > self.window_size { total - self.window_size } else { 0 };
        let batches = excess / self.batch_size;
        proof {
            assert(batches * self.batch_size <= excess) by (nonlinear_arith)
                requires
                    batches == excess / self.batch_size,
                    self.batch_size > 0,
            ;
        }
        batches * self.batch_size
    }

    /// Splits `messages` into `(kept, demoted)`.
    ///
    /// The first whole batches of the excess over the window are demoted; if
    /// the first kept message is then a tool result, its call went with the
    /// batch, so it is demoted too to keep the pair intact.
    pub fn apply_with_demoted<T: ConversationItem>(&self, messages: Vec<T>) -> (r: (Vec<T>, Vec<T>))
        requires
            self.spec_batch_size() > 0,
        ensures
            (r.0@, r.1@) == window_split(messages@, self.spec_window_size(), self.spec_batch_size()),
    {
        let d = self.demote_count(messages.len());
        proof {
            let total = messages@.len();
            let w = self.spec_window_size();
            let b = self.spec_batch_size();
            let excess: nat = if total > w { (total - w) as nat } else { 0 };
            assert((excess / b) * b <= excess) by (nonlinear_arith)
                requires
                    b > 0,
            ;
        }
        if d == 0 {
            return (messages, Vec::new());
        }
        let mut demoted = messages;
        let mut kept = demoted.split_off(d);
        if kept.len() > 0 && kept[0].is_tool_result() {
            let orphan = kept.remove(0);
            demoted.push(orphan);
        }
        proof {
            assert(demoted@ =~= window_split(messages@, self.spec_window_size(), self.spec_batch_size()).1);
            assert(kept@ =~= window_split(messages@, self.spec_window_size(), self.spec_batch_size()).0);
        }
        (kept, demoted)
    }

    /// The messages the window keeps.
    pub fn apply<T: ConversationItem>(&self, messages: Vec<T>) -> (kept: Vec<T>)
        requires
            self.spec_batch_size() > 0,
        ensures
            kept@ == window_split(messages@, self.spec_window_size(), self.spec_batch_size()).0,
    {
        self.apply_with_demoted(messages).0
    }
}

/// Nothing is lost and nothing is reordered: the demoted messages followed by
/// the kept ones are exactly the input.
pub proof fn lemma_window_partitions_history<T: ConversationItem>(
    messages: Seq<T>,
    window: nat,
    batch: nat,
)
    requires
        batch > 0,
    ensures
        ({
            let (kept, demoted) = window_split(messages, window, batch);
            demoted + kept == messages
        }),
{
    lemma_demote_count_bounds(messages.len(), window, batch);
    let (kept, demoted) = window_split(messages, window, batch);
    assert(demoted + kept =~= messages);
}

/// The demoted count is a whole number of batches, taken only from the excess
/// over the window.
pub proof fn lemma_demote_count_bounds(total: nat, window: nat, batch: nat)
    requires
        batch > 0,
    ensures
        demote_count(total, window, batch) % batch == 0,
        total <= window ==> demote_count(total, window, batch) == 0,
        total > window ==> demote_count(total, window, batch) <= total - window,
        total > window ==> total - window - demote_count(total, window, batch) < batch,
{
    let excess: nat = if total > window { (total - window) as nat } else { 0 };
    let q = excess / batch;
    assert(q * batch <= excess && excess - q * batch < batch && (q * batch) % batch == 0)
        by (nonlinear_arith)
        requires
            batch > 0,
            q == excess / batch,
    ;
}

/// What the window keeps: everything while the history fits the window;
/// otherwise fewer than `window + batch` messages, and at least the window
/// less the one tool result that may follow its demoted call.
pub proof fn lemma_window_kept_size<T: ConversationItem>(messages: Seq<T>, window: nat, batch: nat)
    requires
        batch > 0,
    ensures
        ({
            let kept = window_split(messages, window, batch).0;
            &&& messages.len() < window + batch ==> kept == messages
            &&& messages.len() <= window ==> kept == messages
            &&& messages.len() > window ==> kept.len() < window + batch
            &&& messages.len() > window ==> kept.len() + 1 >= window
        }),
{
    lemma_demote_count_bounds(messages.len(), window, batch);
    let d = demote_count(messages.len(), window, batch);
    if messages.len() < window + batch && messages.len() > window {
        let excess = (messages.len() - window) as nat;
        assert(excess / batch == 0) by (nonlinear_arith)
            requires
                excess < batch,
                batch > 0,
        ;
    }
}

/// The window is idempotent: what it keeps, it keeps whole when applied again.
pub proof fn lemma_window_idempotent<T: ConversationItem>(messages: Seq<T>, window: nat, batch: nat)
    requires
        batch > 0,
    ensures
        ({
            let kept = window_split(messages, window, batch).0;
            window_split(kept, window, batch) == (kept, Seq::<T>::empty())
        }),
{
    lemma_window_kept_size(messages, window, batch);
    let kept = window_split(messages, window, batch).0;
    lemma_demote_count_bounds(kept.len(), window, batch);
    if kept.len() > window {
        let excess = (kept.len() - window) as nat;
        assert(excess / batch == 0) by (nonlinear_arith)
            requires
                excess < batch,
                batch > 0,
        ;
    }
    assert(demote_count(kept.len(), window, batch) == 0);
}

/// A tool-result turn that would open the kept history after a demotion goes
/// with the demoted batch, whatever other blocks it holds: when some whole
/// batch is demoted and the next message is a user turn whose first block is a
/// tool result, exactly the batch and that turn are demoted.
pub proof fn lemma_orphaned_tool_result_goes_with_its_batch(
    messages: Seq<Message>,
    window: nat,
    batch: nat,
)
    requires
        batch > 0,
        demote_count(messages.len(), window, batch) > 0,
        ({
            let d = demote_count(messages.len(), window, batch) as int;
            &&& d < messages.len()
            &&& messages[d] is User
            &&& messages[d]->User_content@.len() > 0
            &&& messages[d]->User_content@[0] is ToolResult
        }),
    ensures
        ({
            let d = demote_count(messages.len(), window, batch) as int;
            let (kept, demoted) = window_split(messages, window, batch);
            &&& demoted == messages.take(d + 1)
            &&& kept == messages.skip(d + 1)
            &&& demoted.len() == d + 1
        }),
{
    let d = demote_count(messages.len(), window, batch) as int;
    lemma_tool_result_turn(messages[d]);
}

/// A message that is not a tool-result turn stays at the front of the kept
/// history: when some whole batch is demoted and the next message is not a
/// user turn opening with a tool result, exactly the batch is demoted.
pub proof fn lemma_other_messages_stay_kept(messages: Seq<Message>, window: nat, batch: nat)
    requires
        batch > 0,
        demote_count(messages.len(), window, batch) > 0,
        ({
            let d = demote_count(messages.len(), window, batch) as int;
            !(messages[d] is User && messages[d]->User_content@.len() > 0
                && messages[d]->User_content@[0] is ToolResult)
        }),
    ensures
        ({
            let d = demote_count(messages.len(), window, batch) as int;
            let (kept, demoted) = window_split(messages, window, batch);
            &&& demoted == messages.take(d)
            &&& kept == messages.skip(d)
        }),
{
    let d = demote_count(messages.len(), window, batch) as int;
    lemma_demote_count_bounds(messages.len(), window, batch);
    if d < messages.len() {
        lemma_tool_result_turn(messages[d]);
    }
}

} // verus!
