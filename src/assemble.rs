//! Reassembly of translated entries into the output document, and the running
//! total of the cost that the translation calls report.
use vstd::prelude::*;
use vstd::string::StringExecFns;

use crate::segment::{
    block_entries, block_lines, block_entry, entries_view, input_lines, joined, segment,
    segment_round_trip, segment_unterminated_last, well_formed_block, EntryView, SourceBlock,
    SubtitleEntry,
};
use crate::text::{trim, trimmed};

verus! {

/// What one translation call gave back: the translated text and its cost.
pub struct Reply {
    pub text: String,
    pub cost: i64,
}

/// The cost that a reply counts for: the reported figure, or zero when the
/// reply reports none.
pub open spec fn reported_cost(total_tokens: Option<i64>) -> int {
    match total_tokens {
        Some(c) => c as int,
        None => 0,
    }
}

/// The translated text of a reply: its content, or empty when it has none.
pub open spec fn reported_text(content: Option<Seq<char>>) -> Seq<char> {
    match content {
        Some(t) => t,
        None => seq![],
    }
}

impl Reply {
    /// Builds a reply from the two fields of a response, either of which may be
    /// missing.
    pub fn from_fields(content: Option<String>, total_tokens: Option<i64>) -> (r: Reply)
        ensures
            r.text@ == reported_text(
                match content {
                    Some(s) => Some(s@),
                    None => None,
                },
            ),
            r.cost == reported_cost(total_tokens),
    {
        let text = match content {
            Some(s) => s,
            None => String::new(),
        };
        let cost: i64 = match total_tokens {
            Some(c) => c,
            None => 0,
        };
        Reply { text, cost }
    }
}

/// An entry together with its translation.
pub struct TranslatedView {
    pub index: Seq<char>,
    pub time_code: Seq<char>,
    pub source_text: Seq<char>,
    pub translated_text: Seq<char>,
}

pub open spec fn translated(e: EntryView, translation: Seq<char>) -> TranslatedView {
    TranslatedView {
        index: e.index,
        time_code: e.time_code,
        source_text: e.text,
        translated_text: translation,
    }
}

/// The four lines of one entry in the output: index, time code, trimmed source
/// text, trimmed translation; no newline after the last.
pub open spec fn entry_block(t: TranslatedView) -> Seq<char> {
    t.index + seq!['\n'] + t.time_code + seq!['\n'] + trimmed(t.source_text) + seq!['\n'] + trimmed(
        t.translated_text,
    )
}

/// The output document: the blocks of the entries in order, a blank line
/// between two consecutive ones, none after the last.
pub open spec fn render(ts: Seq<TranslatedView>) -> Seq<char>
    decreases ts.len(),
{
    if ts.len() == 0 {
        seq![]
    } else if ts.len() == 1 {
        entry_block(ts[0])
    } else {
        render(ts.drop_last()) + seq!['\n', '\n'] + entry_block(ts.last())
    }
}

pub open spec fn cost_sum(costs: Seq<int>) -> int
    decreases costs.len(),
{
    if costs.len() == 0 {
        0
    } else {
        cost_sum(costs.drop_last()) + costs.last()
    }
}

pub struct AssemblerView {
    pub entries: Seq<TranslatedView>,
    pub costs: Seq<int>,
}

/// The output buffer and the cost total, filled one translated entry at a time.
pub struct Assembler {
    output: String,
    total_cost: i64,
    started: bool,
    entries: Ghost<Seq<TranslatedView>>,
    costs: Ghost<Seq<int>>,
}

impl View for Assembler {
    type V = AssemblerView;

    closed spec fn view(&self) -> AssemblerView {
        AssemblerView { entries: self.entries@, costs: self.costs@ }
    }
}

impl Assembler {
    /// The buffer holds the rendering of the entries added so far, and the total
    /// is the sum of their costs.
    pub closed spec fn wf(&self) -> bool {
        &&& self.output@ == render(self.entries@)
        &&& self.total_cost as int == cost_sum(self.costs@)
        &&& self.entries@.len() == self.costs@.len()
        &&& self.started == (self.entries@.len() > 0)
    }

    pub fn new() -> (r: Assembler)
        ensures
            r.wf(),
            r@.entries == Seq::<TranslatedView>::empty(),
            r@.costs == Seq::<int>::empty(),
    {
        Assembler {
            output: String::new(),
            total_cost: 0,
            started: false,
            entries: Ghost(Seq::empty()),
            costs: Ghost(Seq::empty()),
        }
    }

    /// Whether a further cost can be added without leaving the range of `i64`.
    pub fn can_add(&self, cost: i64) -> (r: bool)
        requires
            self.wf(),
        ensures
            r == (i64::MIN <= cost_sum(self@.costs) + cost <= i64::MAX),
    {
        if cost >= 0 {
            self.total_cost <= i64::MAX - cost
        } else {
            self.total_cost >= i64::MIN - cost
        }
    }

    /// Appends an entry with its translation, and adds the reply's cost.
    pub fn add(&mut self, entry: &SubtitleEntry, reply: &Reply)
        requires
            old(self).wf(),
            i64::MIN <= cost_sum(old(self)@.costs) + reply.cost <= i64::MAX,
        ensures
            final(self).wf(),
            final(self)@.entries == old(self)@.entries.push(translated(entry@, reply.text@)),
            final(self)@.costs == old(self)@.costs.push(reply.cost as int),
    {
        let ghost t = translated(entry@, reply.text@);
        let ghost before = self.output@;
        if self.started {
            self.output.append("\n\n");
        }
        self.started = true;
        let ghost sep = self.output@;
        self.output.append(entry.index.as_str());
        self.output.append("\n");
        self.output.append(entry.time_code.as_str());
        self.output.append("\n");
        self.output.append(trim(entry.text.as_str()));
        self.output.append("\n");
        self.output.append(trim(reply.text.as_str()));
        self.total_cost = self.total_cost + reply.cost;
        proof {
            reveal_strlit("\n");
            reveal_strlit("\n\n");
            assert(self.output@ =~= sep + entry_block(t));
            let es = self.entries@.push(t);
            assert(es.drop_last() =~= self.entries@);
            if self.entries@.len() > 0 {
                assert(sep =~= before + seq!['\n', '\n']);
            } else {
                assert(sep =~= seq![]);
            }
            let cs = self.costs@.push(reply.cost as int);
            assert(cs.drop_last() =~= self.costs@);
            self.entries = Ghost(es);
            self.costs = Ghost(cs);
        }
    }

    /// The output document so far.
    pub fn output(&self) -> (r: &str)
        requires
            self.wf(),
        ensures
            r@ == render(self@.entries),
    {
        self.output.as_str()
    }

    /// The sum of the costs added so far.
    pub fn total_cost(&self) -> (r: i64)
        requires
            self.wf(),
        ensures
            r == cost_sum(self@.costs),
    {
        self.total_cost
    }
}

/// Each entry paired with the translation at the same position.
pub open spec fn translations(es: Seq<EntryView>, texts: Seq<Seq<char>>) -> Seq<TranslatedView> {
    Seq::new(es.len(), |i: int| translated(es[i], texts[i]))
}

pub open spec fn reply_texts(rs: Seq<Reply>) -> Seq<Seq<char>> {
    rs.map_values(|r: Reply| r.text@)
}

pub open spec fn reply_costs(rs: Seq<Reply>) -> Seq<int> {
    rs.map_values(|r: Reply| r.cost as int)
}

/// Every running total of the costs stays within the range of `i64`.
pub open spec fn costs_fit(cs: Seq<int>) -> bool {
    forall|k: int| 0 <= k <= cs.len() ==> i64::MIN <= #[trigger] cost_sum(cs.take(k)) <= i64::MAX
}

/// Assembles the output document and the total cost from the entries and the
/// replies to them, taken in the same order. Gives `None` when there are not
/// as many replies as entries, or when a running total of the costs leaves the
/// range of `i64`.
pub fn assemble(entries: &Vec<SubtitleEntry>, replies: &Vec<Reply>) -> (r: Option<(String, i64)>)
    ensures
        r is Some <==> (entries@.len() == replies@.len() && costs_fit(reply_costs(replies@))),
        r is Some ==> r->Some_0.0@ == render(
            translations(entries_view(entries@), reply_texts(replies@)),
        ),
        r is Some ==> r->Some_0.1 == cost_sum(reply_costs(replies@)),
{
    if entries.len() != replies.len() {
        return None;
    }
    let mut doc = Assembler::new();
    let ghost es = entries_view(entries@);
    let ghost ts = reply_texts(replies@);
    let ghost cs = reply_costs(replies@);
    let mut i: usize = 0;
    assert(cs.take(0) =~= Seq::<int>::empty());
    while i < entries.len()
        invariant
            entries@.len() == replies@.len(),
            i <= entries@.len(),
            es == entries_view(entries@),
            ts == reply_texts(replies@),
            cs == reply_costs(replies@),
            doc.wf(),
            doc@.entries == translations(es, ts).take(i as int),
            doc@.costs == cs.take(i as int),
            forall|k: int| 0 <= k <= i ==> i64::MIN <= #[trigger] cost_sum(cs.take(k)) <= i64::MAX,
        decreases entries@.len() - i,
    {
        let reply = &replies[i];
        if !doc.can_add(reply.cost) {
            assert(cs.take(i + 1).drop_last() =~= cs.take(i as int));
            assert(cs.take(i + 1).last() == reply.cost as int);
            assert(cost_sum(cs.take(i + 1)) == cost_sum(doc@.costs) + reply.cost);
            assert(!(i64::MIN <= cost_sum(cs.take(i + 1)) <= i64::MAX));
            assert(!costs_fit(cs));
            return None;
        }
        doc.add(&entries[i], reply);
        proof {
            assert(translations(es, ts).take(i + 1) =~= translations(es, ts).take(i as int).push(
                translated(entries@[i as int]@, replies@[i as int].text@),
            ));
            assert(cs.take(i + 1) =~= cs.take(i as int).push(replies@[i as int].cost as int));
        }
        i = i + 1;
    }
    assert(translations(es, ts).take(i as int) =~= translations(es, ts));
    assert(cs.take(i as int) =~= cs);
    let output = String::from_str(doc.output());
    let total = doc.total_cost();
    Some((output, total))
}

/// Lines joined by newlines, with no newline after the last.
pub open spec fn join_lines(ls: Seq<Seq<char>>) -> Seq<char>
    decreases ls.len(),
{
    if ls.len() == 0 {
        seq![]
    } else if ls.len() == 1 {
        ls[0]
    } else {
        join_lines(ls.drop_last()) + seq!['\n'] + ls.last()
    }
}

/// The four lines of one entry in the output.
pub open spec fn entry_lines(t: TranslatedView) -> Seq<Seq<char>> {
    seq![t.index, t.time_code, trimmed(t.source_text), trimmed(t.translated_text)]
}

/// The lines of the output: four for each entry, an empty line between two
/// consecutive entries, none after the last.
pub open spec fn output_lines(ts: Seq<TranslatedView>) -> Seq<Seq<char>>
    decreases ts.len(),
{
    if ts.len() == 0 {
        seq![]
    } else if ts.len() == 1 {
        entry_lines(ts[0])
    } else {
        output_lines(ts.drop_last()) + seq![seq![]] + entry_lines(ts.last())
    }
}

proof fn lemma_join_concat(a: Seq<Seq<char>>, b: Seq<Seq<char>>)
    requires
        a.len() > 0,
        b.len() > 0,
    ensures
        join_lines(a + b) == join_lines(a) + seq!['\n'] + join_lines(b),
    decreases b.len(),
{
    assert((a + b).drop_last() =~= a + b.drop_last());
    assert((a + b).last() == b.last());
    if b.len() == 1 {
        assert(a + b.drop_last() =~= a);
    } else {
        lemma_join_concat(a, b.drop_last());
        assert(join_lines(a) + seq!['\n'] + join_lines(b.drop_last()) + seq!['\n'] + b.last()
            =~= join_lines(a) + seq!['\n'] + join_lines(b));
    }
}

proof fn lemma_join_entry(t: TranslatedView)
    ensures
        join_lines(entry_lines(t)) == entry_block(t),
{
    let ls = entry_lines(t);
    let l1: Seq<Seq<char>> = seq![t.index];
    let l2: Seq<Seq<char>> = seq![t.index, t.time_code];
    let l3: Seq<Seq<char>> = seq![t.index, t.time_code, trimmed(t.source_text)];
    assert(l2.drop_last() =~= l1);
    assert(l3.drop_last() =~= l2);
    assert(ls.drop_last() =~= l3);
    assert(join_lines(l1) == t.index);
    assert(join_lines(l2) == t.index + seq!['\n'] + t.time_code);
    assert(join_lines(l3) == t.index + seq!['\n'] + t.time_code + seq!['\n'] + trimmed(
        t.source_text,
    ));
    assert(join_lines(ls) =~= entry_block(t));
}

/// The output document is the output lines joined by newlines: for each entry
/// its index, its time code, its trimmed source text and its trimmed
/// translation, and one empty line between two consecutive entries, none after
/// the last.
pub proof fn render_is_lines(ts: Seq<TranslatedView>)
    ensures
        render(ts) == join_lines(output_lines(ts)),
    decreases ts.len(),
{
    if ts.len() == 1 {
        lemma_join_entry(ts[0]);
    } else if ts.len() > 1 {
        let p = ts.drop_last();
        render_is_lines(p);
        lemma_join_entry(ts.last());
        assert(output_lines(p).len() > 0) by {
            if p.len() == 1 {
            } else {
                assert((output_lines(p.drop_last()) + seq![seq![]] + entry_lines(p.last())).len() > 0);
            }
        }
        let mid: Seq<Seq<char>> = seq![seq![]];
        assert(output_lines(ts) =~= output_lines(p) + (mid + entry_lines(ts.last())));
        lemma_join_concat(output_lines(p), mid + entry_lines(ts.last()));
        lemma_join_concat(mid, entry_lines(ts.last()));
        assert(join_lines(mid) == Seq::<char>::empty());
        assert(join_lines(output_lines(ts)) =~= render(ts));
    }
}

/// The figures that the replies report, in order, leaving out the missing ones.
pub open spec fn present_costs(tokens: Seq<Option<i64>>) -> Seq<int>
    decreases tokens.len(),
{
    if tokens.len() == 0 {
        seq![]
    } else {
        present_costs(tokens.drop_last()) + match tokens.last() {
            Some(c) => seq![c as int],
            None => Seq::<int>::empty(),
        }
    }
}

proof fn lemma_cost_sum_concat(a: Seq<int>, b: Seq<int>)
    ensures
        cost_sum(a + b) == cost_sum(a) + cost_sum(b),
    decreases b.len(),
{
    if b.len() == 0 {
        assert(a + b =~= a);
    } else {
        assert((a + b).drop_last() =~= a + b.drop_last());
        lemma_cost_sum_concat(a, b.drop_last());
    }
}

/// The total over a run of replies is the sum of the figures that they
/// report; a reply that reports none adds zero.
pub proof fn total_cost_is_sum_of_reports(tokens: Seq<Option<i64>>)
    ensures
        cost_sum(tokens.map_values(|t: Option<i64>| reported_cost(t))) == cost_sum(
            present_costs(tokens),
        ),
    decreases tokens.len(),
{
    if tokens.len() > 0 {
        let p = tokens.drop_last();
        total_cost_is_sum_of_reports(p);
        let m = tokens.map_values(|t: Option<i64>| reported_cost(t));
        assert(m.drop_last() =~= p.map_values(|t: Option<i64>| reported_cost(t)));
        let tail = match tokens.last() {
            Some(c) => seq![c as int],
            None => Seq::<int>::empty(),
        };
        lemma_cost_sum_concat(present_costs(p), tail);
        assert(m.last() == reported_cost(tokens.last()));
        if tail.len() == 1 {
            assert(tail.drop_last() =~= Seq::<int>::empty());
            assert(cost_sum(tail.drop_last()) == 0);
            assert(tokens.last() is Some);
            assert(tail.last() == reported_cost(tokens.last()));
            assert(cost_sum(tail) == reported_cost(tokens.last()));
        } else {
            assert(cost_sum(tail) == 0);
        }
    }
}

/// The blocks of a well-formed input, each with the translation at the same
/// position: index, time code, the text lines each followed by a newline, and
/// the translation.
pub open spec fn blocks_translated(bs: Seq<SourceBlock>, texts: Seq<Seq<char>>) -> Seq<
    TranslatedView,
> {
    Seq::new(
        bs.len(),
        |i: int|
            TranslatedView {
                index: bs[i].index,
                time_code: bs[i].time_code,
                source_text: joined(bs[i].lines),
                translated_text: texts[i],
            },
    )
}

/// For a well-formed input, each entry followed by a blank line, the document
/// built from its segmented entries and their translations holds, for each
/// input entry in order, its own index, time code and text with the
/// translation at the same position.
pub proof fn document_of_well_formed_input(bs: Seq<SourceBlock>, texts: Seq<Seq<char>>)
    requires
        forall|i: int| 0 <= i < bs.len() ==> well_formed_block(#[trigger] bs[i]),
        texts.len() == bs.len(),
    ensures
        render(translations(segment(input_lines(bs)), texts)) == render(blocks_translated(bs, texts)),
{
    segment_round_trip(bs);
    assert(translations(block_entries(bs), texts) =~= blocks_translated(bs, texts));
}

/// The same holds when the last entry has no blank line after it.
pub proof fn document_of_unterminated_input(
    bs: Seq<SourceBlock>,
    last: SourceBlock,
    texts: Seq<Seq<char>>,
)
    requires
        forall|i: int| 0 <= i < bs.len() ==> well_formed_block(#[trigger] bs[i]),
        well_formed_block(last),
        texts.len() == bs.len() + 1,
    ensures
        render(translations(segment(input_lines(bs) + block_lines(last)), texts)) == render(
            blocks_translated(bs.push(last), texts),
        ),
{
    segment_unterminated_last(bs, last);
    let all = bs.push(last);
    assert(block_entries(bs).push(block_entry(last)) =~= block_entries(all));
    assert(translations(block_entries(all), texts) =~= blocks_translated(all, texts));
}

} // verus!
