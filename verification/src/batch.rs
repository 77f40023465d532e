//! The batch assembler: documents are gathered into windows of a fixed size,
//! and each window is written out as one payload of the bulk protocol.

use vstd::prelude::*;
use vstd::arithmetic::div_mod::lemma_fundamental_div_mod_converse;

verus! {

/// The line that goes before each document: the order to index it into
/// `index`. The name is written as it is, without escaping.
pub open spec fn action_line(index: Seq<char>) -> Seq<char> {
    "{\"index\":{\"_index\":\""@ + index + "\"}}"@
}

/// The two lines that one document adds to a payload, each closed by a line
/// feed.
pub open spec fn entry(index: Seq<char>, doc: Seq<char>) -> Seq<char> {
    action_line(index) + "\n"@ + doc + "\n"@
}

/// The payload of a window of documents: the entries of the documents, in
/// order.
pub open spec fn payload(index: Seq<char>, docs: Seq<Seq<char>>) -> Seq<char>
    decreases docs.len(),
{
    if docs.len() == 0 {
        Seq::empty()
    } else {
        payload(index, docs.drop_last()) + entry(index, docs.last())
    }
}

/// Whether a window that holds `count` documents is full under the
/// configured size. With a size of zero every document fills a window.
pub open spec fn is_full(count: nat, batch_size: nat) -> bool {
    count >= batch_size
}

/// The number of documents in a full window: the configured size, and one
/// where the size is zero.
pub open spec fn window(batch_size: nat) -> nat {
    if batch_size == 0 {
        1
    } else {
        batch_size
    }
}

/// What comes of taking `docs` one by one on top of what is pending: the
/// windows handed out on the way, in order, and what is pending at the end.
pub open spec fn fed(pending: Seq<Seq<char>>, docs: Seq<Seq<char>>, batch_size: nat) -> (
    Seq<Seq<Seq<char>>>,
    Seq<Seq<char>>,
)
    decreases docs.len(),
{
    if docs.len() == 0 {
        (Seq::empty(), pending)
    } else if is_full(pending.len() + 1, batch_size) {
        let rest = fed(Seq::empty(), docs.drop_first(), batch_size);
        (seq![pending.push(docs[0])] + rest.0, rest.1)
    } else {
        fed(pending.push(docs[0]), docs.drop_first(), batch_size)
    }
}

/// All the windows that go out when `docs` are taken on top of what is
/// pending: those handed out on the way, and what is left at the end, if
/// anything is.
pub open spec fn dispatched_after(
    pending: Seq<Seq<char>>,
    docs: Seq<Seq<char>>,
    batch_size: nat,
) -> Seq<Seq<Seq<char>>> {
    let f = fed(pending, docs, batch_size);
    if f.1.len() > 0 {
        f.0.push(f.1)
    } else {
        f.0
    }
}

/// All the windows that go out for `docs`, from an assembler that holds
/// nothing.
pub open spec fn dispatched(docs: Seq<Seq<char>>, batch_size: nat) -> Seq<Seq<Seq<char>>> {
    dispatched_after(Seq::empty(), docs, batch_size)
}

/// The documents of the given windows, one window after the other.
pub open spec fn concat(windows: Seq<Seq<Seq<char>>>) -> Seq<Seq<char>>
    decreases windows.len(),
{
    if windows.len() == 0 {
        Seq::empty()
    } else {
        windows[0] + concat(windows.drop_first())
    }
}

proof fn lemma_concat_push(windows: Seq<Seq<Seq<char>>>, last: Seq<Seq<char>>)
    ensures
        concat(windows.push(last)) == concat(windows) + last,
    decreases windows.len(),
{
    if windows.len() == 0 {
        assert(windows.push(last).drop_first() =~= windows);
        assert(concat(windows.push(last)) =~= concat(windows) + last);
    } else {
        lemma_concat_push(windows.drop_first(), last);
        assert(windows.push(last).drop_first() =~= windows.drop_first().push(last));
        assert(concat(windows.push(last)) =~= concat(windows) + last);
    }
}

proof fn lemma_fed(pending: Seq<Seq<char>>, docs: Seq<Seq<char>>, batch_size: nat)
    requires
        pending.len() < window(batch_size),
    ensures
        concat(fed(pending, docs, batch_size).0) + fed(pending, docs, batch_size).1 == pending
            + docs,
        forall|i: int|
            0 <= i < fed(pending, docs, batch_size).0.len() ==> (#[trigger] fed(
                pending,
                docs,
                batch_size,
            ).0[i]).len() == window(batch_size),
        fed(pending, docs, batch_size).1.len() < window(batch_size),
        fed(pending, docs, batch_size).0.len() * window(batch_size) + fed(
            pending,
            docs,
            batch_size,
        ).1.len() == pending.len() + docs.len(),
    decreases docs.len(),
{
    let all = pending + docs;
    let b = window(batch_size) as int;
    let f = fed(pending, docs, batch_size);
    if docs.len() == 0 {
        assert(concat(f.0) + f.1 =~= all);
        assert(f.0.len() * b == 0) by (nonlinear_arith)
            requires
                f.0.len() == 0,
        ;
    } else if is_full(pending.len() + 1, batch_size) {
        let first = pending.push(docs[0]);
        let rest = docs.drop_first();
        let g = fed(Seq::empty(), rest, batch_size);
        lemma_fed(Seq::empty(), rest, batch_size);
        assert(f.0 =~= seq![first] + g.0);
        assert(f.0.drop_first() =~= g.0);
        assert(concat(g.0) + g.1 =~= rest);
        assert(concat(f.0) + f.1 =~= first + (concat(g.0) + g.1));
        assert(first + rest =~= all);
        assert(f.0.len() * b == b + g.0.len() * b) by (nonlinear_arith)
            requires
                f.0.len() == 1 + g.0.len(),
        ;
    } else {
        let longer = pending.push(docs[0]);
        lemma_fed(longer, docs.drop_first(), batch_size);
        assert(longer + docs.drop_first() =~= all);
    }
}

/// The windows that go out for a run of documents hold the documents, each
/// once and in order. Every window but the last holds exactly a window's size
/// of documents, and the last holds at least one and no more than that. Their
/// number is the number of documents divided by the size, rounded up.
pub proof fn lemma_dispatched(docs: Seq<Seq<char>>, batch_size: nat)
    ensures
        concat(dispatched(docs, batch_size)) == docs,
        forall|i: int|
            0 <= i < dispatched(docs, batch_size).len() - 1 ==> (#[trigger] dispatched(
                docs,
                batch_size,
            )[i]).len() == window(batch_size),
        dispatched(docs, batch_size).len() > 0 ==> 0 < dispatched(docs, batch_size).last().len()
            <= window(batch_size),
        dispatched(docs, batch_size).len() == (docs.len() + window(batch_size) - 1) / (window(
            batch_size,
        ) as int),
{
    let b = window(batch_size) as int;
    let n = docs.len() as int;
    let f = fed(Seq::empty(), docs, batch_size);
    let d = dispatched(docs, batch_size);
    let k = f.0.len() as int;
    let r = f.1.len() as int;
    lemma_fed(Seq::empty(), docs, batch_size);
    assert(Seq::<Seq<char>>::empty() + docs =~= docs);
    if r > 0 {
        lemma_concat_push(f.0, f.1);
        assert(forall|i: int| 0 <= i < d.len() - 1 ==> d[i] == f.0[i]);
        assert((k + 1) * b == k * b + b) by (nonlinear_arith);
        lemma_fundamental_div_mod_converse(n + b - 1, b, k + 1, r - 1);
    } else {
        assert(concat(f.0) + f.1 =~= concat(f.0));
        if k > 0 {
            assert(d.last() == f.0[k - 1]);
        }
        lemma_fundamental_div_mod_converse(n + b - 1, b, k, b - 1);
    }
}

fn push_entry(out: &mut String, index: &str, doc: &str)
    ensures
        final(out)@ == old(out)@ + entry(index@, doc@),
{
    out.append("{\"index\":{\"_index\":\"");
    out.append(index);
    out.append("\"}}");
    out.append("\n");
    out.append(doc);
    out.append("\n");
    assert(out@ =~= old(out)@ + entry(index@, doc@));
}

/// Writes a window of documents out as one payload.
pub fn bulk_payload(index: &str, docs: &Vec<String>) -> (r: String)
    ensures
        r@ == payload(index@, docs.deep_view()),
{
    let ghost all = docs.deep_view();
    let mut out = String::new();
    let mut i: usize = 0;
    assert(out@ =~= payload(index@, all.take(0)));
    while i < docs.len()
        invariant
            i <= docs@.len(),
            all == docs.deep_view(),
            out@ == payload(index@, all.take(i as int)),
        decreases docs@.len() - i,
    {
        push_entry(&mut out, index, docs[i].as_str());
        assert(all.take(i + 1).drop_last() =~= all.take(i as int));
        i += 1;
    }
    assert(all.take(i as int) =~= all);
    out
}

/// Gathers documents and hands out a payload whenever a window is full.
pub struct BatchAssembler {
    index: String,
    batch_size: usize,
    docs: Vec<String>,
}

impl BatchAssembler {
    /// The name of the index that the documents go to.
    pub closed spec fn index(&self) -> Seq<char> {
        self.index@
    }

    /// The configured size of a window.
    pub closed spec fn batch_size(&self) -> nat {
        self.batch_size as nat
    }

    /// The documents gathered since the last payload.
    pub closed spec fn pending(&self) -> Seq<Seq<char>> {
        self.docs.deep_view()
    }

    /// What holds of every assembler between two calls: it has gathered
    /// nothing, or less than a window.
    pub open spec fn wf(&self) -> bool {
        self.pending().len() == 0 || self.pending().len() < self.batch_size()
    }

    /// An assembler that holds nothing yet.
    pub fn new(index: String, batch_size: usize) -> (r: BatchAssembler)
        ensures
            r.wf(),
            r.index() == index@,
            r.batch_size() == batch_size,
            r.pending() == Seq::<Seq<char>>::empty(),
    {
        let docs: Vec<String> = Vec::new();
        assert(docs.deep_view() =~= Seq::<Seq<char>>::empty());
        BatchAssembler { index, batch_size, docs }
    }

    /// The number of documents gathered since the last payload.
    pub fn pending_count(&self) -> (r: usize)
        ensures
            r == self.pending().len(),
    {
        self.docs.len()
    }

    /// Takes one more document. Where it fills the window, the payload of
    /// the window is handed out and the assembler starts again from nothing.
    pub fn push(&mut self, doc: String) -> (r: Option<String>)
        requires
            old(self).wf(),
        ensures
            final(self).wf(),
            final(self).index() == old(self).index(),
            final(self).batch_size() == old(self).batch_size(),
            r.deep_view() == if is_full(old(self).pending().len() + 1, old(self).batch_size()) {
                Some(payload(old(self).index(), old(self).pending().push(doc@)))
            } else {
                None
            },
            final(self).pending() == if is_full(
                old(self).pending().len() + 1,
                old(self).batch_size(),
            ) {
                Seq::<Seq<char>>::empty()
            } else {
                old(self).pending().push(doc@)
            },
    {
        let ghost before = self.docs.deep_view();
        if self.docs.len() + 1 >= self.batch_size {
            let mut out = bulk_payload(self.index.as_str(), &self.docs);
            push_entry(&mut out, self.index.as_str(), doc.as_str());
            assert(before.push(doc@).drop_last() =~= before);
            self.docs.clear();
            assert(self.docs.deep_view() =~= Seq::<Seq<char>>::empty());
            Some(out)
        } else {
            self.docs.push(doc);
            assert(self.docs.deep_view() =~= before.push(doc@));
            None
        }
    }

    /// Hands out what is left as a last payload, if anything is left.
    pub fn finish(&mut self) -> (r: Option<String>)
        ensures
            final(self).wf(),
            final(self).index() == old(self).index(),
            final(self).batch_size() == old(self).batch_size(),
            final(self).pending() == Seq::<Seq<char>>::empty(),
            r.deep_view() == if old(self).pending().len() > 0 {
                Some(payload(old(self).index(), old(self).pending()))
            } else {
                None
            },
    {
        if self.docs.len() == 0 {
            assert(self.docs.deep_view() =~= Seq::<Seq<char>>::empty());
            None
        } else {
            let out = bulk_payload(self.index.as_str(), &self.docs);
            self.docs.clear();
            assert(self.docs.deep_view() =~= Seq::<Seq<char>>::empty());
            Some(out)
        }
    }
}

} // verus!
