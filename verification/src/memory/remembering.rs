//! Conversation history that opens with the room's long-term memories.
use vstd::prelude::*;
use vstd::string::StringExecFns;

use crate::memory::map::MemoryMap;
use crate::memory::store::Memory;

verus! {

/// One memory as the preamble lists it.
pub open spec fn memory_line(key: Seq<char>, summary: Seq<char>) -> Seq<char> {
    "- "@ + key + ": "@ + summary
}

/// `lines` joined by line feeds.
pub open spec fn joined_lines(lines: Seq<Seq<char>>) -> Seq<char>
    decreases lines.len(),
{
    if lines.len() == 0 {
        Seq::empty()
    } else if lines.len() == 1 {
        lines[0]
    } else {
        joined_lines(lines.drop_last()) + "\n"@ + lines.last()
    }
}

/// The lines of the memories, in the order of the map's entries.
pub open spec fn memory_lines(entries: Seq<(Seq<char>, Memory)>) -> Seq<Seq<char>> {
    entries.map_values(|e: (Seq<char>, Memory)| memory_line(e.0, e.1.summary@))
}

/// The system text that introduces the long-term memories.
pub open spec fn preamble_text(entries: Seq<(Seq<char>, Memory)>) -> Seq<char> {
    "长期记忆：\n"@ + joined_lines(memory_lines(entries))
}

/// `x` occurs in `y` as a contiguous run.
pub open spec fn occurs_in(x: Seq<char>, y: Seq<char>) -> bool {
    exists|off: int| 0 <= off && off + x.len() <= y.len() && #[trigger] y.subrange(off, off + x.len()) == x
}

proof fn lemma_occurs_in_concat(x: Seq<char>, a: Seq<char>, b: Seq<char>)
    ensures
        occurs_in(x, a) ==> occurs_in(x, a + b),
        occurs_in(x, b) ==> occurs_in(x, a + b),
{
    if occurs_in(x, a) {
        let off = choose|off: int| 0 <= off && off + x.len() <= a.len() && #[trigger] a.subrange(off, off + x.len()) == x;
        assert((a + b).subrange(off, off + x.len()) =~= a.subrange(off, off + x.len()));
    }
    if occurs_in(x, b) {
        let off = choose|off: int| 0 <= off && off + x.len() <= b.len() && #[trigger] b.subrange(off, off + x.len()) == x;
        assert((a + b).subrange(a.len() + off, a.len() + off + x.len()) =~= b.subrange(off, off + x.len()));
    }
}

/// Every line occurs in the joined text.
pub proof fn lemma_joined_lines_hold_every_line(lines: Seq<Seq<char>>)
    ensures
        forall|i: int| 0 <= i < lines.len() ==> occurs_in(#[trigger] lines[i], joined_lines(lines)),
    decreases lines.len(),
{
    if lines.len() == 1 {
        let off: int = 0;
        assert(joined_lines(lines).subrange(off, off + lines[0].len()) =~= lines[0]);
        assert(occurs_in(lines[0], joined_lines(lines)));
    } else if lines.len() > 1 {
        let rest = lines.drop_last();
        lemma_joined_lines_hold_every_line(rest);
        let j = joined_lines(lines);
        assert(j == joined_lines(rest) + "\n"@ + lines.last());
        assert forall|i: int| 0 <= i < lines.len() implies occurs_in(#[trigger] lines[i], j) by {
            if i < lines.len() - 1 {
                assert(rest[i] == lines[i]);
                lemma_occurs_in_concat(lines[i], joined_lines(rest), "\n"@);
                lemma_occurs_in_concat(lines[i], joined_lines(rest) + "\n"@, lines.last());
            } else {
                let x = lines.last();
                let off: int = j.len() - x.len();
                assert(j.subrange(off, off + x.len()) =~= x);
                assert(occurs_in(x, j));
            }
        }
    }
}

/// The preamble lists every memory: after its header come exactly as many
/// lines as there are memories, joined by line feeds, the `i`-th being
/// `- key: summary` of the `i`-th memory; each such line occurs in it.
pub proof fn lemma_preamble_lists_every_memory(entries: Seq<(Seq<char>, Memory)>)
    ensures
        exists|ls: Seq<Seq<char>>|
            ls.len() == entries.len() && (forall|i: int|
                0 <= i < ls.len() ==> #[trigger] ls[i] == "- "@ + entries[i].0 + ": "@
                    + entries[i].1.summary@) && preamble_text(entries) == "长期记忆：\n"@
                + joined_lines(ls),
        forall|i: int|
            0 <= i < entries.len() ==> occurs_in(
                "- "@ + (#[trigger] entries[i]).0 + ": "@ + entries[i].1.summary@,
                preamble_text(entries),
            ),
{
    let ls = memory_lines(entries);
    assert(ls.len() == entries.len());
    assert forall|i: int| 0 <= i < ls.len() implies #[trigger] ls[i] == "- "@ + entries[i].0 + ": "@
        + entries[i].1.summary@ by {}
    lemma_joined_lines_hold_every_line(ls);
    assert forall|i: int| 0 <= i < entries.len() implies occurs_in(
        "- "@ + (#[trigger] entries[i]).0 + ": "@ + entries[i].1.summary@,
        preamble_text(entries),
    ) by {
        assert(ls[i] == "- "@ + entries[i].0 + ": "@ + entries[i].1.summary@);
        lemma_occurs_in_concat(ls[i], "长期记忆：\n"@, joined_lines(ls));
    }
}

/// The preamble for a room's memories: none when there are none, otherwise a
/// header line followed by one `- key: summary` line per memory.
pub fn memory_preamble(memories: &MemoryMap<Memory>) -> (r: Option<String>)
    requires
        memories.wf(),
    ensures
        memories.entry_seq().len() == 0 ==> r is None,
        memories.entry_seq().len() > 0 ==> (r matches Some(t) && t@ == preamble_text(
            memories.entry_seq(),
        )),
{
    if memories.is_empty() {
        return None;
    }
    let entries = memories.entries();
    let ghost es = memories.entry_seq();
    let mut body = String::new();
    let mut i: usize = 0;
    while i < entries.len()
        invariant
            i <= entries@.len(),
            entries@.map_values(|e: (String, Memory)| (e.0@, e.1)) == es,
            body@ == joined_lines(memory_lines(es.take(i as int))),
        decreases entries@.len() - i,
    {
        let ghost before = body@;
        if i > 0 {
            body.append("\n");
        }
        body.append("- ");
        body.append(entries[i].0.as_str());
        body.append(": ");
        body.append(entries[i].1.summary.as_str());
        proof {
            let ls = memory_lines(es.take(i + 1));
            assert(es[i as int] == (entries@[i as int].0@, entries@[i as int].1));
            assert(ls.drop_last() =~= memory_lines(es.take(i as int)));
            assert(ls.last() == memory_line(entries@[i as int].0@, entries@[i as int].1.summary@));
            if i == 0 {
                assert(body@ =~= ls[0]);
            } else {
                assert(body@ =~= joined_lines(ls.drop_last()) + "\n"@ + ls.last());
            }
        }
        i += 1;
    }
    proof {
        assert(es.take(entries@.len() as int) =~= es);
    }
    Some(String::from_str("长期记忆：\n").concat(body.as_str()))
}

/// The history as loaded: the preamble first when there is one.
pub fn with_preamble<T>(history: Vec<T>, preamble: Option<T>) -> (r: Vec<T>)
    ensures
        r@ == match preamble {
            Some(p) => seq![p] + history@,
            None => history@,
        },
{
    match preamble {
        Some(p) => {
            let mut r = history;
            r.insert(0, p);
            proof {
                assert(r@ =~= seq![p] + history@);
            }
            r
        },
        None => history,
    }
}

} // verus!
