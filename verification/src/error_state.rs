use vstd::prelude::*;
use vstd::string::*;
use std::hash::Hasher;
use crate::assoc::{as_map, has_key, keys_distinct, lemma_as_map_at, lemma_as_map_insert,
    lemma_as_map_remove, lemma_as_map_update};
use crate::text::{push_str, str_equal};

verus! {

/// Lexicographic order of strings by code point (the order of `str` and of the
/// ordered maps keyed by it).
pub open spec fn str_lt(a: Seq<char>, b: Seq<char>) -> bool
    decreases a.len(),
{
    if a.len() == 0 {
        b.len() > 0
    } else if b.len() == 0 {
        false
    } else if a[0] == b[0] {
        str_lt(a.drop_first(), b.drop_first())
    } else {
        (a[0] as int) < (b[0] as int)
    }
}

pub proof fn lemma_str_lt_irreflexive(a: Seq<char>)
    ensures
        !str_lt(a, a),
    decreases a.len(),
{
    if a.len() > 0 {
        lemma_str_lt_irreflexive(a.drop_first());
    }
}

pub proof fn lemma_str_lt_total(a: Seq<char>, b: Seq<char>)
    requires
        a != b,
    ensures
        str_lt(a, b) || str_lt(b, a),
    decreases a.len(),
{
    if a.len() > 0 && b.len() > 0 && a[0] == b[0] {
        if a.drop_first() == b.drop_first() {
            assert(a =~= seq![a[0]] + a.drop_first());
            assert(b =~= seq![b[0]] + b.drop_first());
        }
        lemma_str_lt_total(a.drop_first(), b.drop_first());
    } else if a.len() == 0 && b.len() == 0 {
        assert(a =~= b);
    } else if a.len() > 0 && b.len() > 0 {
        assert((a[0] as int) != (b[0] as int));
    }
}

pub proof fn lemma_str_lt_transitive(a: Seq<char>, b: Seq<char>, c: Seq<char>)
    requires
        str_lt(a, b),
        str_lt(b, c),
    ensures
        str_lt(a, c),
    decreases a.len(),
{
    if a.len() > 0 && b.len() > 0 && c.len() > 0 && a[0] == b[0] && b[0] == c[0] {
        lemma_str_lt_transitive(a.drop_first(), b.drop_first(), c.drop_first());
    }
}

proof fn lemma_str_lt_skip(a: Seq<char>, b: Seq<char>, i: int)
    requires
        0 <= i <= a.len(),
        i <= b.len(),
        forall|j: int| 0 <= j < i ==> a[j] == b[j],
    ensures
        str_lt(a, b) == str_lt(a.skip(i), b.skip(i)),
    decreases i,
{
    if i > 0 {
        assert(a.skip(i) =~= a.drop_first().skip(i - 1));
        assert(b.skip(i) =~= b.drop_first().skip(i - 1));
        lemma_str_lt_skip(a.drop_first(), b.drop_first(), i - 1);
    } else {
        assert(a.skip(0) =~= a);
        assert(b.skip(0) =~= b);
    }
}

/// Whether `a` comes before `b` in code point order.
pub fn str_less(a: &str, b: &str) -> (res: bool)
    ensures
        res == str_lt(a@, b@),
{
    let na = a.unicode_len();
    let nb = b.unicode_len();
    let mut i: usize = 0;
    while i < na && i < nb && a.get_char(i) == b.get_char(i)
        invariant
            na == a@.len(),
            nb == b@.len(),
            i <= na,
            i <= nb,
            forall|j: int| 0 <= j < i ==> a@[j] == b@[j],
        decreases na - i,
    {
        i = i + 1;
    }
    proof {
        lemma_str_lt_skip(a@, b@, i as int);
    }
    if i == na {
        i < nb
    } else if i == nb {
        false
    } else {
        let ca = a.get_char(i);
        let cb = b.get_char(i);
        proof {
            assert(a@.skip(i as int)[0] == ca);
            assert(b@.skip(i as int)[0] == cb);
        }
        ca < cb
    }
}

//////////

/// The listing is sorted by source, strictly, so that no source occurs twice.
pub open spec fn sorted_by_source(e: Seq<(Seq<char>, Seq<char>)>) -> bool {
    forall|i: int, j: int| 0 <= i < j < e.len() ==> str_lt(#[trigger] e[i].0, #[trigger] e[j].0)
}

pub proof fn lemma_sorted_keys_distinct(e: Seq<(Seq<char>, Seq<char>)>)
    requires
        sorted_by_source(e),
    ensures
        keys_distinct(e),
{
    assert forall|i: int, j: int|
        0 <= i < e.len() && 0 <= j < e.len() && i != j implies e[i].0 != e[j].0 by {
        if i < j {
            lemma_str_lt_irreflexive(e[i].0);
        } else {
            lemma_str_lt_irreflexive(e[j].0);
        }
    }
}

/// `"s"` for more than one source, nothing for one.
pub open spec fn plural_suffix(n: nat) -> Seq<char> {
    if n == 1 {
        Seq::empty()
    } else {
        "s"@
    }
}

/// The piece of the error message that the source at position `i` contributes.
pub open spec fn error_subsection(e: Seq<(Seq<char>, Seq<char>)>, i: int) -> Seq<char> {
    let is_last = i == e.len() - 1;
    let ending = if is_last {
        "."@
    } else {
        Seq::empty()
    };
    if i == 0 {
        "Error"@ + plural_suffix(e.len()) + " encountered from '"@ + e[i].0 + "' ("@ + e[i].1
            + ")"@ + ending
    } else {
        let maybe_and = if is_last {
            "and "@
        } else {
            Seq::empty()
        };
        ", "@ + maybe_and + "'"@ + e[i].0 + "' ("@ + e[i].1 + ")"@ + ending
    }
}

/// The pieces of the first `k` sources, one after another.
pub open spec fn error_message_prefix(e: Seq<(Seq<char>, Seq<char>)>, k: int) -> Seq<char>
    decreases k,
{
    if k <= 0 {
        Seq::empty()
    } else {
        error_message_prefix(e, k - 1) + error_subsection(e, k - 1)
    }
}

/// The message that lists every source with its error, in order of the sources.
pub open spec fn error_message(e: Seq<(Seq<char>, Seq<char>)>) -> Seq<char> {
    error_message_prefix(e, e.len() as int)
}

/// The errors currently reported, one per source.
#[derive(Clone, Debug, Hash)]
pub struct ErrorState {
    errors: Vec<(String, String)>,
}

impl ErrorState {
    /// The reported (source, error) pairs, in order of the sources.
    pub closed spec fn listing(&self) -> Seq<(Seq<char>, Seq<char>)> {
        self.errors@.map_values(|p: (String, String)| (p.0@, p.1@))
    }

    /// Well-formedness: the sources are kept sorted, each at most once.
    pub closed spec fn wf(&self) -> bool {
        sorted_by_source(self.listing())
    }
}

impl View for ErrorState {
    type V = Map<Seq<char>, Seq<char>>;

    /// Error source to error message.
    closed spec fn view(&self) -> Map<Seq<char>, Seq<char>> {
        as_map(self.listing())
    }
}

impl ErrorState {
    /// Every source of the listing, with its error, is what the map holds, and nothing else.
    pub proof fn lemma_listing_is_view(&self)
        requires
            self.wf(),
        ensures
            keys_distinct(self.listing()),
            sorted_by_source(self.listing()),
            forall|i: int|
                0 <= i < self.listing().len() ==> #[trigger] self@.contains_key(
                    self.listing()[i].0,
                ) && self@[self.listing()[i].0] == self.listing()[i].1,
            forall|k: Seq<char>|
                #[trigger] self@.contains_key(k) ==> has_key(self.listing(), k),
            self@.dom().finite(),
            self@.len() == self.listing().len(),
    {
        let e = self.listing();
        lemma_sorted_keys_distinct(e);
        assert forall|i: int| 0 <= i < e.len() implies #[trigger] self@.contains_key(e[i].0)
            && self@[e[i].0] == e[i].1 by {
            lemma_as_map_at(e, i);
        }
        lemma_as_map_len(e);
    }

    pub fn new() -> (res: ErrorState)
        ensures
            res.wf(),
            res@ == Map::<Seq<char>, Seq<char>>::empty(),
    {
        let res = ErrorState { errors: Vec::new() };
        assert(res.listing() =~= Seq::empty());
        assert(res@ =~= Map::empty());
        res
    }

    /// Whether no error is reported.
    pub fn is_empty(&self) -> (res: bool)
        requires
            self.wf(),
        ensures
            res == (self@.len() == 0),
    {
        proof {
            self.lemma_listing_is_view();
        }
        self.errors.len() == 0
    }

    /// The position of the first source that does not come before `source`.
    fn lower_bound(&self, source: &str) -> (i: usize)
        requires
            self.wf(),
        ensures
            i <= self.listing().len(),
            forall|j: int| 0 <= j < i ==> str_lt(#[trigger] self.listing()[j].0, source@),
            i < self.listing().len() ==> !str_lt(self.listing()[i as int].0, source@),
    {
        let n = self.errors.len();
        let mut i: usize = 0;
        while i < n && str_less(self.errors[i].0.as_str(), source)
            invariant
                n == self.listing().len(),
                i <= n,
                forall|j: int| 0 <= j < i ==> str_lt(#[trigger] self.listing()[j].0, source@),
            decreases n - i,
        {
            i = i + 1;
        }
        i
    }

    /// Records `err` as the error of `source`, replacing the one it had.
    pub fn report(&mut self, source: &str, err: String)
        requires
            old(self).wf(),
        ensures
            final(self).wf(),
            final(self)@ == old(self)@.insert(source@, err@),
    {
        let ghost e = self.listing();
        let i = self.lower_bound(source);
        let n = self.errors.len();
        proof {
            lemma_sorted_keys_distinct(e);
        }
        if i < n && str_equal(self.errors[i].0.as_str(), source) {
            let key = self.errors[i].0.clone();
            let ghost v = err@;
            self.errors.set(i, (key, err));
            proof {
                assert(self.listing() =~= e.update(i as int, (e[i as int].0, v)));
                lemma_as_map_update(e, i as int, v);
                assert forall|a: int, b: int|
                    0 <= a < b < self.listing().len() implies str_lt(
                    #[trigger] self.listing()[a].0,
                    #[trigger] self.listing()[b].0,
                ) by {
                    assert(self.listing()[a].0 == e[a].0);
                    assert(self.listing()[b].0 == e[b].0);
                }
            }
        } else {
            let ghost v = err@;
            let key = String::from_str(source);
            self.errors.insert(i, (key, err));
            proof {
                let s = source@;
                let t = e.insert(i as int, (s, v));
                assert(self.listing() =~= t);
                if i < n {
                    lemma_str_lt_total(e[i as int].0, s);
                }
                assert(!has_key(e, s)) by {
                    if has_key(e, s) {
                        let j = choose|j: int| 0 <= j < e.len() && e[j].0 == s;
                        lemma_str_lt_irreflexive(s);
                        if j > i {
                            lemma_str_lt_transitive(s, e[i as int].0, e[j].0);
                        }
                    }
                }
                lemma_as_map_insert(e, i as int, s, v);
                assert forall|a: int, b: int| 0 <= a < b < t.len() implies str_lt(
                    #[trigger] t[a].0,
                    #[trigger] t[b].0,
                ) by {
                    if b < i {
                        assert(t[a] == e[a] && t[b] == e[b]);
                    } else if b == i {
                        assert(t[a] == e[a]);
                    } else if a == i {
                        assert(t[b] == e[b - 1]);
                        if b - 1 > i {
                            lemma_str_lt_transitive(s, e[i as int].0, e[b - 1].0);
                        }
                    } else if a < i {
                        assert(t[a] == e[a] && t[b] == e[b - 1]);
                    } else {
                        assert(t[a] == e[a - 1] && t[b] == e[b - 1]);
                    }
                }
            }
        }
    }

    /// Takes back the error of `source`, if it has one.
    pub fn unreport(&mut self, source: &str)
        requires
            old(self).wf(),
        ensures
            final(self).wf(),
            final(self)@ == old(self)@.remove(source@),
    {
        let ghost e = self.listing();
        proof {
            lemma_sorted_keys_distinct(e);
        }
        let n = self.errors.len();
        let mut i: usize = 0;
        while i < n
            invariant
                n == self.errors.len(),
                e == self.listing(),
                e == old(self).listing(),
                sorted_by_source(e),
                keys_distinct(e),
                i <= n,
                forall|j: int| 0 <= j < i ==> #[trigger] e[j].0 != source@,
            decreases n - i,
        {
            if str_equal(self.errors[i].0.as_str(), source) {
                proof {
                    assert(e[i as int].0 == self.errors@[i as int].0@);
                    assert(e[i as int].0 == source@);
                }
                self.errors.remove(i);
                proof {
                    assert(self.listing() =~= e.remove(i as int));
                    lemma_as_map_remove(e, i as int);
                    let t = e.remove(i as int);
                    assert forall|a: int, b: int| 0 <= a < b < t.len() implies str_lt(
                        #[trigger] t[a].0,
                        #[trigger] t[b].0,
                    ) by {
                        let a2 = if a < i { a } else { a + 1 };
                        let b2 = if b < i { b } else { b + 1 };
                        assert(t[a] == e[a2] && t[b] == e[b2]);
                    }
                }
                return;
            }
            i = i + 1;
        }
        proof {
            assert(!has_key(e, source@));
            assert(as_map(e).remove(source@) =~= as_map(e));
        }
    }

    /// The message that the error window shows: the sources in order, each with its error,
    /// such as `Error encountered from 'a' (x).` or
    /// `Errors encountered from 'a' (x), 'b' (y), and 'c' (z).`.
    pub fn make_message(&self) -> (message: String)
        requires
            self.wf(),
            self@.len() > 0,
        ensures
            message@ == error_message(self.listing()),
    {
        proof {
            self.lemma_listing_is_view();
        }
        let ghost e = self.listing();
        let n = self.errors.len();
        let last = n - 1;
        let mut message = String::new();
        let mut i: usize = 0;
        while i < n
            invariant
                n == e.len(),
                n > 0,
                last == n - 1,
                e == self.listing(),
                i <= n,
                message@ == error_message_prefix(e, i as int),
            decreases n - i,
        {
            let is_last = i == last;
            let source = self.errors[i].0.as_str();
            let error = self.errors[i].1.as_str();
            let ghost before = message@;
            if i == 0 {
                push_str(&mut message, "Error");
                if n != 1 {
                    push_str(&mut message, "s");
                }
                push_str(&mut message, " encountered from '");
            } else {
                push_str(&mut message, ", ");
                if is_last {
                    push_str(&mut message, "and ");
                }
                push_str(&mut message, "'");
            }
            push_str(&mut message, source);
            push_str(&mut message, "' (");
            push_str(&mut message, error);
            push_str(&mut message, ")");
            if is_last {
                push_str(&mut message, ".");
            }
            proof {
                assert(source@ == e[i as int].0);
                assert(error@ == e[i as int].1);
                assert(message@ =~= before + error_subsection(e, i as int));
            }
            i = i + 1;
        }
        message
    }
}

/// The length of the map that an association list stands for is its length.
proof fn lemma_as_map_len(e: Seq<(Seq<char>, Seq<char>)>)
    requires
        keys_distinct(e),
    ensures
        as_map(e).dom().finite(),
        as_map(e).len() == e.len(),
    decreases e.len(),
{
    if e.len() == 0 {
        assert(as_map(e).dom() =~= Set::empty());
    } else {
        let d = e.drop_last();
        assert(keys_distinct(d));
        lemma_as_map_len(d);
        assert(!has_key(d, e.last().0)) by {
            if has_key(d, e.last().0) {
                let j = choose|j: int| 0 <= j < d.len() && d[j].0 == e.last().0;
                assert(e[j].0 == e[e.len() - 1].0);
            }
        }
        crate::assoc::lemma_as_map_push(d, e.last().0, e.last().1);
        assert(d.push(e.last()) =~= e);
    }
}

//////////

/// Feeds `obj` into `hasher` (`Hash::hash`). What the bytes are is up to `T`'s `Hash`
/// impl, so nothing is stated of the hasher afterwards.
#[verifier::external_body]
fn feed_hasher<T: std::hash::Hash>(obj: &T, hasher: &mut std::hash::DefaultHasher) {
    std::hash::Hash::hash(obj, hasher);
}

/// Hashes `obj` with a fresh `DefaultHasher`.
pub fn hash_obj<T: std::hash::Hash>(obj: &T) -> u64 {
    let mut hasher = std::hash::DefaultHasher::new();
    feed_hasher(obj, &mut hasher);
    hasher.finish()
}

/// The error window's decision on one frame, from the hash of the error state it saw last
/// (`None` before the first frame), the hash of the current error state, and whether there
/// are no errors. Returns the hash to remember, whether to skip updating the text, and
/// whether to skip drawing the window.
pub fn error_window_step(prev_hash: Option<u64>, curr_hash: u64, no_errors: bool) -> (res: (
    Option<u64>,
    bool,
    bool,
))
    ensures
        res.0 == Some(curr_hash),
        res.1 == match prev_hash {
            Some(p) => p == curr_hash || no_errors,
            None => no_errors,
        },
        res.2 == no_errors,
{
    let skip_update = match prev_hash {
        Some(p) => {
            if p == curr_hash {
                true
            } else {
                no_errors
            }
        },
        None => no_errors,
    };
    (Some(curr_hash), skip_update, no_errors)
}

/// Runs the error window's decision against the current error state, remembering its hash
/// in `state`. Returns whether to skip updating the text and whether to skip drawing.
/// The text is updated whenever errors are shown and the state's hash differs from the
/// remembered one (or none was remembered yet); the window is drawn exactly when there are
/// errors.
pub fn error_window_should_skip(state: &mut Option<u64>, errors: &ErrorState) -> (res: (bool, bool))
    requires
        errors.wf(),
    ensures
        final(state).is_some(),
        res.0 == (*final(state) == *old(state) || errors@.len() == 0),
        res.1 == (errors@.len() == 0),
{
    let no_errors = errors.is_empty();
    let curr_hash = hash_obj(errors);
    let (new_state, skip_update, skip_draw) = error_window_step(*state, curr_hash, no_errors);
    *state = new_state;
    (skip_update, skip_draw)
}

/// Two sorted listings that stand for the same map are the same listing.
proof fn lemma_sorted_listing_unique(x: Seq<(Seq<char>, Seq<char>)>, y: Seq<(Seq<char>, Seq<char>)>)
    requires
        sorted_by_source(x),
        sorted_by_source(y),
        as_map(x) == as_map(y),
    ensures
        x == y,
    decreases x.len(),
{
    lemma_sorted_keys_distinct(x);
    lemma_sorted_keys_distinct(y);
    lemma_as_map_len(x);
    lemma_as_map_len(y);
    if x.len() > 0 {
        lemma_as_map_at(x, 0);
        lemma_as_map_at(y, 0);
        let i = choose|i: int| 0 <= i < x.len() && x[i].0 == y[0].0;
        let j = choose|j: int| 0 <= j < y.len() && y[j].0 == x[0].0;
        if x[0].0 != y[0].0 {
            assert(i > 0 && j > 0);
            assert(str_lt(x[0].0, x[i].0));
            assert(str_lt(y[0].0, y[j].0));
            lemma_str_lt_transitive(x[0].0, y[0].0, x[0].0);
            lemma_str_lt_irreflexive(x[0].0);
        }
        assert(x[0] == y[0]);
        lemma_as_map_remove(x, 0);
        lemma_as_map_remove(y, 0);
        assert(x.remove(0) =~= x.drop_first());
        assert(y.remove(0) =~= y.drop_first());
        assert(sorted_by_source(x.drop_first())) by {
            assert forall|a: int, b: int| 0 <= a < b < x.drop_first().len() implies str_lt(
                #[trigger] x.drop_first()[a].0,
                #[trigger] x.drop_first()[b].0,
            ) by {
                assert(x.drop_first()[a] == x[a + 1] && x.drop_first()[b] == x[b + 1]);
            }
        }
        assert(sorted_by_source(y.drop_first())) by {
            assert forall|a: int, b: int| 0 <= a < b < y.drop_first().len() implies str_lt(
                #[trigger] y.drop_first()[a].0,
                #[trigger] y.drop_first()[b].0,
            ) by {
                assert(y.drop_first()[a] == y[a + 1] && y.drop_first()[b] == y[b + 1]);
            }
        }
        lemma_sorted_listing_unique(x.drop_first(), y.drop_first());
        assert(x =~= seq![x[0]] + x.drop_first());
        assert(y =~= seq![y[0]] + y.drop_first());
    } else {
        assert(x =~= y);
    }
}

/// Reporting an error for a source that had none, and then unreporting the source, leaves the
/// reported errors as they were.
pub proof fn law_unreport_undoes_report(errors: Map<Seq<char>, Seq<char>>, source: Seq<char>, err: Seq<char>)
    requires
        !errors.contains_key(source),
    ensures
        errors.insert(source, err).remove(source) == errors,
{
    assert(errors.insert(source, err).remove(source) =~= errors);
}

/// A source has one error at a time: reporting a second error for it replaces the first.
pub proof fn law_report_replaces_earlier_error(
    errors: Map<Seq<char>, Seq<char>>,
    source: Seq<char>,
    first: Seq<char>,
    second: Seq<char>,
)
    ensures
        errors.insert(source, first).insert(source, second) == errors.insert(source, second),
{
    assert(errors.insert(source, first).insert(source, second) =~= errors.insert(source, second));
}

/// Two error states that hold the same errors list them in the same order, so the error
/// message depends on the reported errors alone, not on the order they were reported in.
pub proof fn law_message_depends_only_on_errors(a: &ErrorState, b: &ErrorState)
    requires
        a.wf(),
        b.wf(),
        a@ == b@,
    ensures
        a.listing() == b.listing(),
        error_message(a.listing()) == error_message(b.listing()),
{
    lemma_sorted_listing_unique(a.listing(), b.listing());
}

} // verus!
