//! The entry segmenter: groups the lines of a subtitle file into entries of
//! index line, time-code line and text.
use vstd::prelude::*;
use vstd::string::StringExecFns;

use crate::text::{
    arrow_line, blank_line, has_arrow, index_line, is_blank, is_digit, is_index_text, is_space,
    unsigned_digits,
};

verus! {

/// One subtitle entry as read from the input: the index line and the time-code
/// line verbatim, and the text lines, each followed by a newline.
pub struct SubtitleEntry {
    pub index: String,
    pub time_code: String,
    pub text: String,
}

/// An entry, or the segmenter's three accumulators, as character sequences.
pub struct EntryView {
    pub index: Seq<char>,
    pub time_code: Seq<char>,
    pub text: Seq<char>,
}

impl View for SubtitleEntry {
    type V = EntryView;

    open spec fn view(&self) -> EntryView {
        EntryView { index: self.index@, time_code: self.time_code@, text: self.text@ }
    }
}

pub open spec fn entries_view(v: Seq<SubtitleEntry>) -> Seq<EntryView> {
    v.map_values(|e: SubtitleEntry| e@)
}

pub open spec fn lines_view(v: Seq<String>) -> Seq<Seq<char>> {
    v.map_values(|l: String| l@)
}

/// The accumulators before the first line: all three empty.
pub open spec fn initial_state() -> EntryView {
    EntryView { index: seq![], time_code: seq![], text: seq![] }
}

/// What a finished accumulator yields: an entry if some text was gathered.
pub open spec fn flush(st: EntryView) -> Seq<EntryView> {
    if st.text.len() > 0 {
        seq![st]
    } else {
        seq![]
    }
}

/// One line read in state `st`: the next state, and the entries it completes.
/// A blank line completes the pending entry and clears only the text; an index
/// line or a time-code line replaces its accumulator; any other line is text.
pub open spec fn step(st: EntryView, line: Seq<char>) -> (EntryView, Seq<EntryView>) {
    if is_blank(line) {
        (EntryView { text: seq![], ..st }, flush(st))
    } else if is_index_text(line) {
        (EntryView { index: line, ..st }, seq![])
    } else if has_arrow(line) {
        (EntryView { time_code: line, ..st }, seq![])
    } else {
        (EntryView { text: st.text + line + seq!['\n'], ..st }, seq![])
    }
}

/// The state after reading `lines` from `st`, and the entries completed on the way.
pub open spec fn run_from(st: EntryView, lines: Seq<Seq<char>>) -> (EntryView, Seq<EntryView>)
    decreases lines.len(),
{
    if lines.len() == 0 {
        (st, seq![])
    } else {
        let (s1, out1) = run_from(st, lines.drop_last());
        let (s2, out2) = step(s1, lines.last());
        (s2, out1 + out2)
    }
}

/// The entries of a whole input, in order; an entry that the input ends on,
/// with no blank line after it, is among them.
pub open spec fn segment(lines: Seq<Seq<char>>) -> Seq<EntryView> {
    let (st, out) = run_from(initial_state(), lines);
    out + flush(st)
}

/// The segmenter, fed one line at a time.
pub struct Segmenter {
    pub index: String,
    pub time_code: String,
    pub text: String,
}

impl View for Segmenter {
    type V = EntryView;

    open spec fn view(&self) -> EntryView {
        EntryView { index: self.index@, time_code: self.time_code@, text: self.text@ }
    }
}

pub open spec fn option_seq(r: Option<SubtitleEntry>) -> Seq<EntryView> {
    match r {
        Some(e) => seq![e@],
        None => seq![],
    }
}

impl Segmenter {
    pub fn new() -> (r: Segmenter)
        ensures
            r@ == initial_state(),
    {
        Segmenter { index: String::new(), time_code: String::new(), text: String::new() }
    }

    fn pending(&self) -> (r: Option<SubtitleEntry>)
        ensures
            option_seq(r) == flush(self@),
    {
        if self.text.as_str().unicode_len() > 0 {
            Some(
                SubtitleEntry {
                    index: self.index.clone(),
                    time_code: self.time_code.clone(),
                    text: self.text.clone(),
                },
            )
        } else {
            None
        }
    }

    /// Reads one line (without its line ending); returns the entry that it completes.
    pub fn feed(&mut self, line: &str) -> (r: Option<SubtitleEntry>)
        ensures
            step(old(self)@, line@) == (final(self)@, option_seq(r)),
    {
        if blank_line(line) {
            let r = self.pending();
            self.text = String::new();
            assert(self.text@ =~= seq![]);
            r
        } else if index_line(line) {
            self.index = String::from_str(line);
            None
        } else if arrow_line(line) {
            self.time_code = String::from_str(line);
            None
        } else {
            let ghost old_text = self.text@;
            self.text.append(line);
            self.text.append("\n");
            proof {
                reveal_strlit("\n");
                assert(self.text@ =~= old_text + line@ + seq!['\n']);
            }
            None
        }
    }

    /// The entry left pending at the end of the input, if any.
    pub fn finish(&self) -> (r: Option<SubtitleEntry>)
        ensures
            option_seq(r) == flush(self@),
    {
        self.pending()
    }
}

/// Splits a whole input, given as its lines, into its entries.
pub fn segment_lines(lines: &Vec<String>) -> (r: Vec<SubtitleEntry>)
    ensures
        entries_view(r@) == segment(lines_view(lines@)),
{
    let mut seg = Segmenter::new();
    let mut out: Vec<SubtitleEntry> = Vec::new();
    let mut i: usize = 0;
    while i < lines.len()
        invariant
            i <= lines@.len(),
            run_from(initial_state(), lines_view(lines@).take(i as int)) == (seg@, entries_view(out@)),
        decreases lines@.len() - i,
    {
        let ghost before = out@;
        let r = seg.feed(lines[i].as_str());
        match r {
            Some(e) => {
                out.push(e);
            },
            None => {},
        }
        proof {
            let lv = lines_view(lines@);
            assert(lv.take(i + 1).drop_last() =~= lv.take(i as int));
            assert(entries_view(out@) =~= entries_view(before) + option_seq(r));
        }
        i = i + 1;
    }
    assert(lines_view(lines@).take(i as int) =~= lines_view(lines@));
    let ghost before = out@;
    let r = seg.finish();
    match r {
        Some(e) => {
            out.push(e);
        },
        None => {},
    }
    assert(entries_view(out@) =~= entries_view(before) + option_seq(r));
    out
}

/// One entry as it stands in a well-formed input: its index line, its
/// time-code line, and its text lines.
pub struct SourceBlock {
    pub index: Seq<char>,
    pub time_code: Seq<char>,
    pub lines: Seq<Seq<char>>,
}

/// A line that the segmenter reads as subtitle text.
pub open spec fn is_text_line(l: Seq<char>) -> bool {
    !is_blank(l) && !is_index_text(l) && !has_arrow(l)
}

/// A block with an index line, a time-code line, and at least one text line.
pub open spec fn well_formed_block(b: SourceBlock) -> bool {
    &&& is_index_text(b.index)
    &&& has_arrow(b.time_code)
    &&& b.lines.len() > 0
    &&& forall|i: int| 0 <= i < b.lines.len() ==> is_text_line(#[trigger] b.lines[i])
}

/// The text lines, each followed by a newline, in order.
pub open spec fn joined(ls: Seq<Seq<char>>) -> Seq<char>
    decreases ls.len(),
{
    if ls.len() == 0 {
        seq![]
    } else {
        joined(ls.drop_last()) + ls.last() + seq!['\n']
    }
}

pub open spec fn block_lines(b: SourceBlock) -> Seq<Seq<char>> {
    seq![b.index, b.time_code] + b.lines
}

/// The entry that a block stands for.
pub open spec fn block_entry(b: SourceBlock) -> EntryView {
    EntryView { index: b.index, time_code: b.time_code, text: joined(b.lines) }
}

pub open spec fn block_entries(bs: Seq<SourceBlock>) -> Seq<EntryView> {
    bs.map_values(|b: SourceBlock| block_entry(b))
}

/// The lines of an input made of the blocks, each followed by a blank line.
pub open spec fn input_lines(bs: Seq<SourceBlock>) -> Seq<Seq<char>>
    decreases bs.len(),
{
    if bs.len() == 0 {
        seq![]
    } else {
        input_lines(bs.drop_last()) + block_lines(bs.last()) + seq![seq![]]
    }
}

proof fn lemma_run_concat(st: EntryView, a: Seq<Seq<char>>, b: Seq<Seq<char>>)
    ensures
        ({
            let (s1, o1) = run_from(st, a);
            let (s2, o2) = run_from(s1, b);
            run_from(st, a + b) == (s2, o1 + o2)
        }),
    decreases b.len(),
{
    if b.len() == 0 {
        assert(a + b =~= a);
        assert(run_from(st, a).1 + seq![] =~= run_from(st, a).1);
    } else {
        assert((a + b).drop_last() =~= a + b.drop_last());
        assert((a + b).last() == b.last());
        lemma_run_concat(st, a, b.drop_last());
        let (s1, o1) = run_from(st, a);
        let (s2, o2) = run_from(s1, b.drop_last());
        let (s3, o3) = step(s2, b.last());
        assert(o1 + o2 + o3 =~= o1 + (o2 + o3));
    }
}

proof fn lemma_run_one(st: EntryView, l: Seq<char>)
    ensures
        run_from(st, seq![l]) == step(st, l),
{
    let ls = seq![l];
    assert(ls.drop_last() =~= Seq::<Seq<char>>::empty());
    assert(run_from(st, ls.drop_last()) == (st, Seq::<EntryView>::empty()));
    assert(ls.last() == l);
    assert(Seq::<EntryView>::empty() + step(st, l).1 =~= step(st, l).1);
}

proof fn lemma_run_text(st: EntryView, ls: Seq<Seq<char>>)
    requires
        forall|i: int| 0 <= i < ls.len() ==> is_text_line(#[trigger] ls[i]),
    ensures
        run_from(st, ls) == (EntryView { text: st.text + joined(ls), ..st }, Seq::<EntryView>::empty()),
    decreases ls.len(),
{
    if ls.len() == 0 {
        assert(st.text + joined(ls) =~= st.text);
    } else {
        let p = ls.drop_last();
        assert forall|i: int| 0 <= i < p.len() implies is_text_line(#[trigger] p[i]) by {
            assert(p[i] == ls[i]);
        }
        assert(is_text_line(ls[ls.len() - 1]));
        lemma_run_text(st, p);
        assert(st.text + joined(p) + ls.last() + seq!['\n'] =~= st.text + joined(ls));
        assert(Seq::<EntryView>::empty() + Seq::<EntryView>::empty() =~= Seq::<EntryView>::empty());
    }
}

proof fn lemma_index_not_blank(l: Seq<char>)
    requires
        is_index_text(l),
    ensures
        !is_blank(l),
        !has_arrow(l),
{
    let d = unsigned_digits(l);
    if l[0] == '+' {
        assert(!is_space(l[0]));
        assert(d[0] == l[1]);
    } else {
        assert(is_digit(d[0]));
        assert(!is_space(l[0]));
    }
    if has_arrow(l) {
        let i = choose|i: int| 0 <= i && i + 3 <= l.len() && #[trigger] l[i] == '-' && l[i + 1] == '-' && l[i + 2] == '>';
        if l[0] == '+' {
            assert(l[i + 1] == d[i]);
            assert(is_digit(d[i]));
        } else {
            assert(l[i] == d[i]);
            assert(is_digit(d[i]));
        }
    }
}

proof fn lemma_arrow_not_blank(l: Seq<char>)
    requires
        has_arrow(l),
    ensures
        !is_blank(l),
        !is_index_text(l),
{
    let i = choose|i: int| 0 <= i && i + 3 <= l.len() && #[trigger] l[i] == '-' && l[i + 1] == '-' && l[i + 2] == '>';
    assert(!is_space(l[i]));
    if is_index_text(l) {
        lemma_index_not_blank(l);
    }
}

proof fn lemma_run_block(st: EntryView, b: SourceBlock)
    requires
        well_formed_block(b),
        st.text.len() == 0,
    ensures
        run_from(st, block_lines(b)) == (block_entry(b), Seq::<EntryView>::empty()),
        block_entry(b).text.len() > 0,
{
    lemma_index_not_blank(b.index);
    lemma_arrow_not_blank(b.time_code);
    let first = seq![b.index];
    let second = seq![b.time_code];
    assert(block_lines(b) =~= first + second + b.lines);
    lemma_run_concat(st, first + second, b.lines);
    lemma_run_concat(st, first, second);
    lemma_run_one(st, b.index);
    let s1 = EntryView { index: b.index, ..st };
    lemma_run_one(s1, b.time_code);
    let s2 = EntryView { time_code: b.time_code, ..s1 };
    lemma_run_text(s2, b.lines);
    assert(s2.text + joined(b.lines) =~= joined(b.lines));
    assert(Seq::<EntryView>::empty() + Seq::<EntryView>::empty() =~= Seq::<EntryView>::empty());
    assert(b.lines.drop_last() + seq![b.lines.last()] =~= b.lines);
    assert(joined(b.lines).len() > 0);
}

proof fn lemma_run_input(bs: Seq<SourceBlock>)
    requires
        forall|i: int| 0 <= i < bs.len() ==> well_formed_block(#[trigger] bs[i]),
    ensures
        run_from(initial_state(), input_lines(bs)).1 == block_entries(bs),
        run_from(initial_state(), input_lines(bs)).0.text.len() == 0,
    decreases bs.len(),
{
    if bs.len() == 0 {
        assert(block_entries(bs) =~= Seq::<EntryView>::empty());
    } else {
        let p = bs.drop_last();
        assert forall|i: int| 0 <= i < p.len() implies well_formed_block(#[trigger] p[i]) by {
            assert(p[i] == bs[i]);
        }
        let b = bs.last();
        assert(well_formed_block(bs[bs.len() - 1]));
        lemma_run_input(p);
        let (s0, o0) = run_from(initial_state(), input_lines(p));
        lemma_run_concat(initial_state(), input_lines(p) + block_lines(b), seq![seq![]]);
        lemma_run_concat(initial_state(), input_lines(p), block_lines(b));
        lemma_run_block(s0, b);
        lemma_run_one(block_entry(b), seq![]);
        assert(block_entries(bs) =~= block_entries(p) + seq![block_entry(b)]);
        assert(o0 + Seq::<EntryView>::empty() + seq![block_entry(b)] =~= block_entries(bs));
    }
}

/// A well-formed input, each entry followed by a blank line, segments into
/// exactly its entries, in order, each with its index, time code and text.
pub proof fn segment_round_trip(bs: Seq<SourceBlock>)
    requires
        forall|i: int| 0 <= i < bs.len() ==> well_formed_block(#[trigger] bs[i]),
    ensures
        segment(input_lines(bs)) == block_entries(bs),
{
    lemma_run_input(bs);
    assert(block_entries(bs) + Seq::<EntryView>::empty() =~= block_entries(bs));
}

/// When the last entry of an input has no blank line after it, that entry is
/// still produced, after all the others.
pub proof fn segment_unterminated_last(bs: Seq<SourceBlock>, last: SourceBlock)
    requires
        forall|i: int| 0 <= i < bs.len() ==> well_formed_block(#[trigger] bs[i]),
        well_formed_block(last),
    ensures
        segment(input_lines(bs) + block_lines(last)) == block_entries(bs).push(block_entry(last)),
{
    lemma_run_input(bs);
    let (s0, o0) = run_from(initial_state(), input_lines(bs));
    lemma_run_concat(initial_state(), input_lines(bs), block_lines(last));
    lemma_run_block(s0, last);
    assert(o0 + Seq::<EntryView>::empty() + seq![block_entry(last)] =~= block_entries(bs).push(
        block_entry(last),
    ));
}

/// The text of an entry holds all of its text lines, in order, each followed
/// by a newline.
pub proof fn segment_keeps_text_lines(b: SourceBlock)
    requires
        well_formed_block(b),
    ensures
        segment(block_lines(b) + seq![seq![]]) == seq![block_entry(b)],
        segment(block_lines(b) + seq![seq![]])[0].text == joined(b.lines),
{
    let bs = seq![b];
    assert(bs.drop_last() =~= Seq::<SourceBlock>::empty());
    assert(input_lines(bs.drop_last()) =~= Seq::<Seq<char>>::empty());
    assert(input_lines(bs) =~= block_lines(b) + seq![seq![]]);
    segment_round_trip(bs);
    assert(block_entries(bs) =~= seq![block_entry(b)]);
}

} // verus!
