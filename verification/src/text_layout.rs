use vstd::prelude::*;
use vstd::string::*;
use crate::text::push_char;

verus! {

/// Whether the default font draws a character: the characters of the basic multilingual
/// plane. The fallback font draws the rest.
pub open spec fn default_font_has_char(c: char) -> bool {
    (c as u32) <= 0xFFFF
}

/// One more character of text, added to its runs: it joins the last run if the same font
/// draws it, and starts a new run otherwise.
pub open spec fn add_char_to_spans(spans: Seq<(bool, Seq<char>)>, c: char) -> Seq<(bool, Seq<char>)> {
    let use_default = default_font_has_char(c);
    if spans.len() > 0 && spans.last().0 == use_default {
        spans.update(spans.len() - 1, (use_default, spans.last().1.push(c)))
    } else {
        spans.push((use_default, seq![c]))
    }
}

/// The text split into maximal runs of characters drawn by the same font, each run with
/// whether the default font draws it.
pub open spec fn font_spans(text: Seq<char>) -> Seq<(bool, Seq<char>)>
    decreases text.len(),
{
    if text.len() == 0 {
        Seq::empty()
    } else {
        add_char_to_spans(font_spans(text.drop_last()), text.last())
    }
}

/// The runs' texts, one after the other.
pub open spec fn concat_spans(spans: Seq<(bool, Seq<char>)>) -> Seq<char>
    decreases spans.len(),
{
    if spans.len() == 0 {
        Seq::empty()
    } else {
        concat_spans(spans.drop_last()) + spans.last().1
    }
}

/// Splits text into the runs that are each drawn by one font (see `font_spans`).
pub fn font_spans_of(text: &str) -> (res: Vec<(bool, String)>)
    ensures
        res@.map_values(|s: (bool, String)| (s.0, s.1@)) == font_spans(text@),
{
    let n = text.unicode_len();
    let mut spans: Vec<(bool, String)> = Vec::new();
    let mut i: usize = 0;
    while i < n
        invariant
            n == text@.len(),
            i <= n,
            spans@.map_values(|s: (bool, String)| (s.0, s.1@)) == font_spans(text@.take(i as int)),
        decreases n - i,
    {
        let c = text.get_char(i);
        let use_default = (c as u32) <= 0xFFFF;
        let ghost before = spans@.map_values(|s: (bool, String)| (s.0, s.1@));
        let continues_last_span = spans.len() > 0 && spans[spans.len() - 1].0 == use_default;
        if continues_last_span {
            let (last_use_default, mut last_text) = spans.pop().unwrap();
            push_char(&mut last_text, c);
            spans.push((last_use_default, last_text));
        } else {
            let mut new_text = String::new();
            push_char(&mut new_text, c);
            spans.push((use_default, new_text));
        }
        proof {
            assert(text@.take(i + 1).drop_last() =~= text@.take(i as int));
            assert(text@.take(i + 1).last() == c);
            assert(spans@.map_values(|s: (bool, String)| (s.0, s.1@)) =~= add_char_to_spans(before, c));
        }
        i = i + 1;
    }
    proof {
        assert(text@.take(n as int) =~= text@);
    }
    spans
}

/// `a` is `b`, or a part of `b` from its start.
pub open spec fn is_prefix(a: Seq<char>, b: Seq<char>) -> bool {
    a.len() <= b.len() && b.subrange(0, a.len() as int) == a
}

/// The sum of the widths of fitted runs.
pub open spec fn total_width(fitted: Seq<(usize, Seq<char>, u32)>) -> int
    decreases fitted.len(),
{
    if fitted.len() == 0 {
        0
    } else {
        total_width(fitted.drop_last()) + fitted.last().2
    }
}

/// What fitting runs of text into a width gives: for each run that is drawn, its position
/// among the runs, the part of it that is drawn (a nonempty part from its start) and that
/// part's width (more than zero). The runs are drawn in order, and whole, except for the last
/// one when `last_may_be_cut`; their widths add up to at most `max_width`.
pub open spec fn is_fitting(
    fitted: Seq<(usize, Seq<char>, u32)>,
    spans: Seq<(bool, Seq<char>)>,
    max_width: u32,
    last_may_be_cut: bool,
) -> bool {
    &&& forall|j: int| 0 <= j < fitted.len() ==> {
        &&& (#[trigger] fitted[j]).0 < spans.len()
        &&& fitted[j].1.len() > 0
        &&& is_prefix(fitted[j].1, spans[fitted[j].0 as int].1)
        &&& fitted[j].2 > 0
    }
    &&& forall|j: int, k: int| 0 <= j < k < fitted.len() ==> (#[trigger] fitted[j]).0 < (#[trigger] fitted[k]).0
    &&& forall|j: int| 0 <= j < fitted.len() && (j < fitted.len() - 1 || !last_may_be_cut)
        ==> (#[trigger] fitted[j]).1 == spans[fitted[j].0 as int].1
    &&& total_width(fitted) <= max_width
}

/// The first run at or after position `i` that has any characters (the number of runs if
/// there is none).
pub open spec fn next_nonempty(spans: Seq<(bool, Seq<char>)>, i: int) -> int
    decreases spans.len() - i,
{
    if i >= spans.len() {
        spans.len() as int
    } else if spans[i].1.len() > 0 {
        i
    } else {
        next_nonempty(spans, i + 1)
    }
}

/// The characters in the runs from position `i` on.
pub open spec fn chars_from(spans: Seq<(bool, Seq<char>)>, i: int) -> int
    decreases spans.len() - i,
{
    if i < 0 || i >= spans.len() {
        0
    } else {
        spans[i].1.len() + chars_from(spans, i + 1)
    }
}

/// Where the fitting stands: the run being measured, how many of its characters are
/// measured, whether it is being cut (it did not fit whole), the width taken so far, and
/// whether the fitting is over.
pub type FitCursor = (int, int, bool, int, bool);

/// Moving on to the next run that has characters, from position `i`, to measure it whole.
pub open spec fn move_to(spans: Seq<(bool, Seq<char>)>, i: int, total: int) -> FitCursor {
    let j = next_nonempty(spans, i);
    if j < spans.len() {
        (j, spans[j].1.len() as int, false, total, false)
    } else {
        (j, 0, false, total, true)
    }
}

/// One step of fitting runs of text into a texture at most `max_width` pixels wide, after the
/// part of the current run being measured came out `width` pixels wide: returns where the
/// fitting goes next, and the part of the run that it takes, if any. A run that measures
/// nothing is left out; a run that fits whole is taken whole; the first run that does not fit
/// is cut a character at a time from its end until it fits, is taken if it then measures
/// anything, and ends the fitting.
pub open spec fn after_width(
    spans: Seq<(bool, Seq<char>)>,
    max_width: u32,
    cursor: FitCursor,
    width: u32,
) -> (FitCursor, Option<(usize, Seq<char>, u32)>) {
    let (span, len, cutting, total, done) = cursor;
    let part = (span as usize, spans[span].1.subrange(0, len), width);
    let fits = total + width <= max_width;
    if !cutting && width == 0 {
        (move_to(spans, span + 1, total), None)
    } else if !cutting && fits {
        (move_to(spans, span + 1, total + width), Some(part))
    } else if fits {
        ((span, len, true, total + width, true), if width == 0 { None } else { Some(part) })
    } else if len <= 1 {
        ((span, 0, true, total, true), None)
    } else {
        ((span, len - 1, true, total, false), None)
    }
}

/// How far the fitting is from its end: it gets closer with each measurement.
pub open spec fn fit_progress(spans: Seq<(bool, Seq<char>)>, cursor: FitCursor) -> int {
    if cursor.4 {
        0
    } else {
        chars_from(spans, cursor.0 + 1) + cursor.1 + 1
    }
}

proof fn lemma_chars_from_nonneg(spans: Seq<(bool, Seq<char>)>, i: int)
    ensures
        chars_from(spans, i) >= 0,
    decreases spans.len() - i,
{
    if 0 <= i < spans.len() {
        lemma_chars_from_nonneg(spans, i + 1);
    }
}

proof fn lemma_next_nonempty(spans: Seq<(bool, Seq<char>)>, i: int)
    requires
        0 <= i <= spans.len(),
    ensures
        i <= next_nonempty(spans, i) <= spans.len(),
        next_nonempty(spans, i) < spans.len() ==> spans[next_nonempty(spans, i)].1.len() > 0,
        chars_from(spans, i) == chars_from(spans, next_nonempty(spans, i)),
    decreases spans.len() - i,
{
    if i < spans.len() && spans[i].1.len() == 0 {
        lemma_next_nonempty(spans, i + 1);
    }
}

/// Fits runs of text into a texture of a limited width, one measurement at a time (see
/// `after_width`): the fitter says what to measure next, and is told the width it came out.
pub struct SpanFitter {
    spans: Vec<(bool, String)>,
    max_width: u32,
    span: usize,
    len: usize,
    cutting: bool,
    total: u64,
    done: bool,
    fitted: Vec<(usize, String, u32)>,
}

impl SpanFitter {
    /// The runs being fitted.
    pub closed spec fn spans_view(&self) -> Seq<(bool, Seq<char>)> {
        self.spans@.map_values(|s: (bool, String)| (s.0, s.1@))
    }

    pub closed spec fn max_width_spec(&self) -> u32 {
        self.max_width
    }

    pub closed spec fn cursor(&self) -> FitCursor {
        (self.span as int, self.len as int, self.cutting, self.total as int, self.done)
    }

    /// The parts of runs taken so far: each with its run's position, its text and its width.
    pub closed spec fn fitted_view(&self) -> Seq<(usize, Seq<char>, u32)> {
        self.fitted@.map_values(|f: (usize, String, u32)| (f.0, f.1@, f.2))
    }

    /// Well-formedness: what was taken fits, and the cursor is on a run with characters,
    /// after the runs taken, measuring a nonempty part of it (all of it unless it is cut).
    pub closed spec fn wf(&self) -> bool {
        let spans = self.spans_view();
        let fitted = self.fitted_view();
        &&& self.total == total_width(fitted)
        &&& self.total <= self.max_width
        &&& is_fitting(fitted, spans, self.max_width, self.done)
        &&& self.span <= spans.len()
        &&& !self.done ==> {
            &&& self.span < spans.len()
            &&& 0 < self.len <= spans[self.span as int].1.len()
            &&& !self.cutting ==> self.len == spans[self.span as int].1.len()
        }
        &&& forall|j: int| 0 <= j < fitted.len() ==> (#[trigger] fitted[j]).0 <= self.span
        &&& !self.done ==> forall|j: int| 0 <= j < fitted.len() ==> (#[trigger] fitted[j]).0 < self.span
    }

    /// Moves the cursor to the next run with characters from position `i`, to measure it whole.
    fn move_to(&mut self, i: usize)
        requires
            i <= old(self).spans@.len(),
        ensures
            final(self).spans == old(self).spans,
            final(self).max_width == old(self).max_width,
            final(self).total == old(self).total,
            final(self).fitted == old(self).fitted,
            final(self).cursor() == move_to(old(self).spans_view(), i as int, old(self).total as int),
    {
        let ghost spans = self.spans_view();
        let mut j = i;
        while j < self.spans.len() && self.spans[j].1.unicode_len() == 0
            invariant
                spans == self.spans@.map_values(|s: (bool, String)| (s.0, s.1@)),
                i <= j <= self.spans@.len(),
                next_nonempty(spans, i as int) == next_nonempty(spans, j as int),
            decreases self.spans@.len() - j,
        {
            assert(spans[j as int].1 == self.spans@[j as int].1@);
            j = j + 1;
        }
        if j < self.spans.len() {
            assert(spans[j as int].1 == self.spans@[j as int].1@);
            self.span = j;
            self.len = self.spans[j].1.unicode_len();
            self.cutting = false;
            self.done = false;
        } else {
            self.span = j;
            self.len = 0;
            self.cutting = false;
            self.done = true;
        }
    }

    /// A fitter for `spans` (see `font_spans_of`), into `max_width` pixels.
    pub fn new(spans: Vec<(bool, String)>, max_width: u32) -> (res: SpanFitter)
        ensures
            res.wf(),
            res.spans_view() == spans@.map_values(|s: (bool, String)| (s.0, s.1@)),
            res.max_width_spec() == max_width,
            res.cursor() == move_to(res.spans_view(), 0, 0),
            res.fitted_view() == Seq::<(usize, Seq<char>, u32)>::empty(),
    {
        let mut fitter = SpanFitter {
            spans,
            max_width,
            span: 0,
            len: 0,
            cutting: false,
            total: 0,
            done: true,
            fitted: Vec::new(),
        };
        fitter.move_to(0);
        proof {
            lemma_next_nonempty(fitter.spans_view(), 0);
            assert(fitter.fitted_view() =~= Seq::<(usize, Seq<char>, u32)>::empty());
        }
        fitter
    }

    pub fn is_done(&self) -> (res: bool)
        ensures
            res == self.cursor().4,
    {
        self.done
    }

    /// What to measure next: the font of the current run, and the part of it being measured;
    /// `None` once the fitting is over.
    pub fn next_measurement(&self) -> (res: Option<(bool, String)>)
        requires
            self.wf(),
        ensures
            match res {
                Some((use_default_font, text)) => {
                    &&& !self.cursor().4
                    &&& use_default_font == self.spans_view()[self.cursor().0].0
                    &&& text@ == self.spans_view()[self.cursor().0].1.subrange(0, self.cursor().1)
                },
                None => self.cursor().4,
            },
    {
        if self.done {
            return None;
        }
        let ghost spans = self.spans_view();
        assert(spans[self.span as int].1 == self.spans@[self.span as int].1@);
        let text = self.spans[self.span].1.as_str();
        Some((self.spans[self.span].0, String::from_str(text.substring_char(0, self.len))))
    }

    /// Takes in the width that the part being measured came out (see `after_width`).
    pub fn receive_width(&mut self, width: u32)
        requires
            old(self).wf(),
            !old(self).cursor().4,
        ensures
            final(self).wf(),
            final(self).spans_view() == old(self).spans_view(),
            final(self).max_width_spec() == old(self).max_width_spec(),
            final(self).cursor() == after_width(old(self).spans_view(), old(self).max_width_spec(), old(self).cursor(), width).0,
            final(self).fitted_view() == match after_width(old(self).spans_view(), old(self).max_width_spec(), old(self).cursor(), width).1 {
                Some(part) => old(self).fitted_view().push(part),
                None => old(self).fitted_view(),
            },
            fit_progress(final(self).spans_view(), final(self).cursor()) < fit_progress(old(self).spans_view(), old(self).cursor()),
    {
        let ghost spans = self.spans_view();
        let ghost before = self.fitted_view();
        let ghost old_cursor = self.cursor();
        let span = self.span;
        let len = self.len;
        let n_spans = self.spans.len();
        assert(span < n_spans);
        assert(spans[span as int].1 == self.spans@[span as int].1@);
        let fits = self.total + width as u64 <= self.max_width as u64;
        let take = width != 0 && fits;
        if take {
            let text = self.spans[span].1.as_str();
            let part = String::from_str(text.substring_char(0, len));
            self.fitted.push((span, part, width));
            self.total = self.total + width as u64;
            proof {
                let after = self.fitted_view();
                assert(after.drop_last() =~= before);
                assert(after.last() == (span, spans[span as int].1.subrange(0, len as int), width));
                assert(spans[span as int].1.subrange(0, len as int).subrange(0, len as int)
                    =~= spans[span as int].1.subrange(0, len as int));
                if !self.cutting {
                    assert(spans[span as int].1.subrange(0, len as int) =~= spans[span as int].1);
                }
                assert forall|j: int, k: int| 0 <= j < k < after.len() implies (#[trigger] after[j]).0 < (#[trigger] after[k]).0 by {
                    if k < after.len() - 1 {
                        assert(after[j] == before[j] && after[k] == before[k]);
                    } else {
                        assert(after[j] == before[j]);
                    }
                }
                assert forall|j: int| 0 <= j < after.len() implies {
                    &&& (#[trigger] after[j]).0 < spans.len()
                    &&& after[j].1.len() > 0
                    &&& is_prefix(after[j].1, spans[after[j].0 as int].1)
                    &&& after[j].2 > 0
                } by {
                    if j < after.len() - 1 {
                        assert(after[j] == before[j]);
                    }
                }
                assert forall|j: int| 0 <= j < after.len() && (j < after.len() - 1 || !self.cutting)
                    implies (#[trigger] after[j]).1 == spans[after[j].0 as int].1 by {
                    if j < after.len() - 1 {
                        assert(after[j] == before[j]);
                    }
                }
                assert forall|j: int| 0 <= j < after.len() implies (#[trigger] after[j]).0 <= span by {
                    if j < after.len() - 1 {
                        assert(after[j] == before[j]);
                    }
                }
            }
        }
        proof {
            lemma_chars_from_nonneg(spans, span + 1);
            assert(self.spans@.len() == spans.len());
        }
        if !self.cutting && (width == 0 || fits) {
            proof {
                lemma_next_nonempty(spans, span + 1);
                let j = next_nonempty(spans, span + 1);
                if j < spans.len() {
                    lemma_chars_from_nonneg(spans, j + 1);
                    assert(chars_from(spans, j) == spans[j].1.len() + chars_from(spans, j + 1));
                }
            }
            self.move_to(span + 1);
        } else if fits {
            self.done = true;
        } else if len <= 1 {
            self.len = 0;
            self.cutting = true;
            self.done = true;
        } else {
            self.len = len - 1;
            self.cutting = true;
        }
        proof {
            let after = self.fitted_view();
            assert forall|j: int| 0 <= j < after.len() implies (#[trigger] after[j]).0 <= self.span by {
                if j < before.len() {
                    assert(after[j] == before[j]);
                }
            }
            if !self.done {
                assert forall|j: int| 0 <= j < after.len() implies (#[trigger] after[j]).0 < self.span by {
                    if j < before.len() {
                        assert(after[j] == before[j]);
                    }
                }
            }
        }
    }

    /// The parts of runs taken: they fit within the width, in the order of their runs, and
    /// each but the last is a whole run.
    pub fn into_fitted(self) -> (res: Vec<(usize, String, u32)>)
        requires
            self.wf(),
        ensures
            res@.map_values(|f: (usize, String, u32)| (f.0, f.1@, f.2)) == self.fitted_view(),
            is_fitting(self.fitted_view(), self.spans_view(), self.max_width_spec(), true),
    {
        self.fitted
    }
}

/// Text is split into runs that give back the text one after the other; each run is
/// nonempty and drawn entirely by one font, and neighbouring runs are drawn by different
/// fonts.
pub proof fn law_font_spans_partition_text(text: Seq<char>)
    ensures
        concat_spans(font_spans(text)) == text,
        forall|j: int| 0 <= j < font_spans(text).len() ==> (#[trigger] font_spans(text)[j]).1.len() > 0,
        forall|j: int, k: int|
            0 <= j < font_spans(text).len() && 0 <= k < font_spans(text)[j].1.len()
                ==> default_font_has_char(#[trigger] font_spans(text)[j].1[k]) == font_spans(text)[j].0,
        forall|j: int| 0 <= j < font_spans(text).len() - 1 ==> (#[trigger] font_spans(text)[j]).0 != font_spans(text)[j + 1].0,
    decreases text.len(),
{
    if text.len() > 0 {
        let rest = text.drop_last();
        let c = text.last();
        law_font_spans_partition_text(rest);
        let before = font_spans(rest);
        let after = font_spans(text);
        assert(after == add_char_to_spans(before, c));
        let use_default = default_font_has_char(c);
        if before.len() > 0 && before.last().0 == use_default {
            let last = before.last();
            assert(after.drop_last() =~= before.drop_last());
            assert(concat_spans(before) == concat_spans(before.drop_last()) + last.1);
            assert(concat_spans(after) == concat_spans(after.drop_last()) + last.1.push(c));
            assert(concat_spans(after) =~= concat_spans(before).push(c));
            assert(rest.push(c) =~= text);
            assert forall|j: int, k: int|
                0 <= j < after.len() && 0 <= k < after[j].1.len()
                    implies default_font_has_char(#[trigger] after[j].1[k]) == after[j].0 by {
                if j == after.len() - 1 {
                    if k < last.1.len() {
                        assert(after[j].1[k] == before[j].1[k]);
                    }
                } else {
                    assert(after[j] == before[j]);
                }
            }
            assert forall|j: int| 0 <= j < after.len() - 1 implies (#[trigger] after[j]).0 != after[j + 1].0 by {
                assert(after[j] == before[j]);
                assert(after[j + 1].0 == before[j + 1].0);
            }
            assert forall|j: int| 0 <= j < after.len() implies (#[trigger] after[j]).1.len() > 0 by {
                if j < after.len() - 1 {
                    assert(after[j] == before[j]);
                }
            }
        } else {
            assert(after.drop_last() =~= before);
            assert(concat_spans(after) == concat_spans(before) + seq![c]);
            assert(rest + seq![c] =~= text);
            assert forall|j: int, k: int|
                0 <= j < after.len() && 0 <= k < after[j].1.len()
                    implies default_font_has_char(#[trigger] after[j].1[k]) == after[j].0 by {
                if j < after.len() - 1 {
                    assert(after[j] == before[j]);
                }
            }
            assert forall|j: int| 0 <= j < after.len() - 1 implies (#[trigger] after[j]).0 != after[j + 1].0 by {
                assert(after[j] == before[j]);
                if j + 1 < after.len() - 1 {
                    assert(after[j + 1] == before[j + 1]);
                }
            }
            assert forall|j: int| 0 <= j < after.len() implies (#[trigger] after[j]).1.len() > 0 by {
                if j < after.len() - 1 {
                    assert(after[j] == before[j]);
                }
            }
        }
    }
}

} // verus!
