//! Sets of texts and maps from texts.

use crate::order::{sort, sorted_from};
use crate::text::{
    copy_texts, is_before, lemma_precedes_irreflexive, lemma_precedes_total,
    lemma_precedes_transitive, precedes, same_text, texts,
};
use vstd::prelude::*;

verus! {

/// Whether each text stands before the next in the order of texts.
pub open spec fn increasing_texts(s: Seq<Seq<char>>) -> bool {
    forall|i: int, j: int| 0 <= i < j < s.len() ==> precedes(#[trigger] s[i], #[trigger] s[j])
}

proof fn lemma_increasing_no_duplicates(s: Seq<Seq<char>>)
    requires
        increasing_texts(s),
    ensures
        s.no_duplicates(),
{
    assert forall|i: int, j: int| 0 <= i < s.len() && 0 <= j < s.len() && i != j implies s[i]
        != s[j] by {
        lemma_precedes_irreflexive(s[i]);
        if i < j {
            assert(precedes(s[i], s[j]));
        } else {
            assert(precedes(s[j], s[i]));
        }
    }
}

/// A set of texts, kept in order.
#[derive(Debug)]
pub struct TextSet {
    items: Vec<String>,
}

impl View for TextSet {
    type V = Set<Seq<char>>;

    closed spec fn view(&self) -> Set<Seq<char>> {
        texts(self.items@).to_set()
    }
}

impl TextSet {
    /// Whether the texts stand in order, each once.
    pub closed spec fn valid(self) -> bool {
        increasing_texts(texts(self.items@))
    }

    /// The texts in order.
    pub closed spec fn listed(self) -> Seq<Seq<char>> {
        texts(self.items@)
    }

    /// The texts in order are the texts of the set, each once.
    pub proof fn lemma_listed(self)
        requires
            self.valid(),
        ensures
            self.listed().to_set() == self@,
            increasing_texts(self.listed()),
            self.listed().no_duplicates(),
    {
        lemma_increasing_no_duplicates(self.listed());
    }

    /// The empty set.
    pub fn new() -> (out: TextSet)
        ensures
            out.valid(),
            out@ == Set::<Seq<char>>::empty(),
    {
        let items: Vec<String> = Vec::new();
        assert(texts(items@).to_set() =~= Set::<Seq<char>>::empty());
        TextSet { items }
    }

    /// The texts in order.
    pub fn items(&self) -> (out: &Vec<String>)
        ensures
            texts(out@) == self.listed(),
    {
        &self.items
    }

    /// The number of texts that stand before `text`.
    fn place(&self, text: &str) -> (at: usize)
        requires
            self.valid(),
        ensures
            at <= self.items@.len(),
            forall|i: int| 0 <= i < at ==> precedes(#[trigger] texts(self.items@)[i], text@),
            forall|i: int|
                at <= i < self.items@.len() ==> !precedes(#[trigger] texts(self.items@)[i], text@),
    {
        let ghost all = texts(self.items@);
        let mut low: usize = 0;
        let mut high: usize = self.items.len();
        while low < high
            invariant
                all == texts(self.items@),
                increasing_texts(all),
                low <= high <= self.items@.len(),
                forall|i: int| 0 <= i < low ==> precedes(#[trigger] all[i], text@),
                forall|i: int| high <= i < all.len() ==> !precedes(#[trigger] all[i], text@),
            decreases high - low,
        {
            let mid: usize = low + (high - low) / 2;
            assert(all[mid as int] == self.items@[mid as int]@);
            if is_before(self.items[mid].as_str(), text) {
                assert forall|i: int| 0 <= i <= mid implies precedes(#[trigger] all[i], text@) by {
                    if i < mid {
                        lemma_precedes_transitive(all[i], all[mid as int], text@);
                    }
                }
                low = mid + 1;
            } else {
                assert forall|i: int| mid <= i < all.len() implies !precedes(
                    #[trigger] all[i],
                    text@,
                ) by {
                    if i > mid && precedes(all[i], text@) {
                        lemma_precedes_transitive(all[mid as int], all[i], text@);
                    }
                }
                high = mid;
            }
        }
        low
    }

    /// Whether `place` found the text itself.
    fn stands_at(&self, at: usize, text: &str) -> (res: bool)
        requires
            self.valid(),
            at <= self.items@.len(),
            forall|i: int| 0 <= i < at ==> precedes(#[trigger] texts(self.items@)[i], text@),
            forall|i: int|
                at <= i < self.items@.len() ==> !precedes(#[trigger] texts(self.items@)[i], text@),
        ensures
            res == self@.contains(text@),
            res ==> at < self.items@.len() && self.items@[at as int]@ == text@,
    {
        let ghost all = texts(self.items@);
        let res = at < self.items.len() && same_text(self.items[at].as_str(), text);
        proof {
            if res {
                assert(all[at as int] == text@);
            } else if all.contains(text@) {
                let k = choose|k: int| 0 <= k < all.len() && all[k] == text@;
                lemma_precedes_irreflexive(text@);
                assert(k > at);
                assert(precedes(all[at as int], all[k]));
            }
        }
        res
    }

    /// Whether the text is in the set.
    pub fn contains(&self, text: &str) -> (res: bool)
        requires
            self.valid(),
        ensures
            res == self@.contains(text@),
    {
        let at: usize = self.place(text);
        self.stands_at(at, text)
    }

    /// Puts a text in the set. The answer is whether it was not there.
    pub fn insert(&mut self, text: String) -> (added: bool)
        requires
            old(self).valid(),
        ensures
            final(self).valid(),
            final(self)@ == old(self)@.insert(text@),
            added == !old(self)@.contains(text@),
    {
        let at: usize = self.place(text.as_str());
        if self.stands_at(at, text.as_str()) {
            assert(self@.insert(text@) =~= self@);
            return false;
        }
        let ghost before = texts(self.items@);
        let ghost x = text@;
        self.items.insert(at, text);
        proof {
            let after = texts(self.items@);
            assert(after =~= before.insert(at as int, x));
            assert forall|i: int, j: int| 0 <= i < j < after.len() implies precedes(
                #[trigger] after[i],
                #[trigger] after[j],
            ) by {
                let a = if i < at { before[i] } else if i == at { x } else { before[i - 1] };
                let b = if j < at { before[j] } else if j == at { x } else { before[j - 1] };
                assert(after[i] == a && after[j] == b);
                if i == at {
                    lemma_precedes_total(x, before[j - 1]);
                    assert(before.contains(before[j - 1]));
                }
            }
            assert forall|y: Seq<char>| after.contains(y) <==> before.contains(y) || y == x by {
                if after.contains(y) {
                    let k = choose|k: int| 0 <= k < after.len() && after[k] == y;
                    if k < at {
                        assert(before[k] == y);
                    } else if k > at {
                        assert(before[k - 1] == y);
                    }
                }
                if before.contains(y) {
                    let k = choose|k: int| 0 <= k < before.len() && before[k] == y;
                    if k < at {
                        assert(after[k] == y);
                    } else {
                        assert(after[k + 1] == y);
                    }
                }
                if y == x {
                    assert(after[at as int] == y);
                }
            }
            assert(after.to_set() =~= before.to_set().insert(x));
        }
        true
    }

    /// Takes a text out of the set. The answer is whether it was there.
    pub fn remove(&mut self, text: &str) -> (removed: bool)
        requires
            old(self).valid(),
        ensures
            final(self).valid(),
            final(self)@ == old(self)@.remove(text@),
            removed == old(self)@.contains(text@),
    {
        let at: usize = self.place(text);
        if !self.stands_at(at, text) {
            assert(self@.remove(text@) =~= self@);
            return false;
        }
        let ghost before = texts(self.items@);
        self.items.remove(at);
        proof {
            lemma_increasing_no_duplicates(before);
            let after = texts(self.items@);
            assert(after =~= before.remove(at as int));
            assert(before[at as int] == text@);
            assert forall|i: int, j: int| 0 <= i < j < after.len() implies precedes(
                #[trigger] after[i],
                #[trigger] after[j],
            ) by {
                let a = if i < at { i } else { i + 1 };
                let b = if j < at { j } else { j + 1 };
                assert(after[i] == before[a] && after[j] == before[b]);
            }
            assert forall|y: Seq<char>| after.contains(y) <==> before.contains(y) && y != text@ by {
                if after.contains(y) {
                    let k = choose|k: int| 0 <= k < after.len() && after[k] == y;
                    let m = if k < at { k } else { k + 1 };
                    assert(before[m] == y);
                }
                if before.contains(y) && y != text@ {
                    let m = choose|m: int| 0 <= m < before.len() && before[m] == y;
                    let k = if m < at { m } else { m - 1 };
                    assert(after[k] == y);
                }
            }
            assert(after.to_set() =~= before.to_set().remove(text@));
        }
        true
    }

    /// The set of these texts.
    pub fn from_texts(items: Vec<String>) -> (out: TextSet)
        ensures
            out.valid(),
            out@ == texts(items@).to_set(),
    {
        let ghost all = texts(items@);
        let mut out = TextSet::new();
        assert(all.take(0).to_set() =~= Set::<Seq<char>>::empty());
        for item in it: items
            invariant
                it.seq() == items@,
                all == texts(items@),
                out.valid(),
                out@ == all.take(it.index() as int).to_set(),
        {
            let ghost k = it.index() as int;
            proof {
                assert(all[k] == item@);
                assert(all.take(k + 1) =~= all.take(k).push(item@));
                all.take(k).lemma_push_to_set_commute(item@);
            }
            out.insert(item);
        }
        assert(all.take(all.len() as int) =~= all);
        out
    }
}

impl Clone for TextSet {
    fn clone(&self) -> (out: TextSet)
        ensures
            out@ == self@,
            out.listed() == self.listed(),
            self.valid() ==> out.valid(),
    {
        TextSet { items: copy_texts(&self.items) }
    }
}

/// A map from texts.
#[derive(Debug)]
pub struct TextMap<V> {
    keys: Vec<String>,
    values: Vec<V>,
}

impl<V> View for TextMap<V> {
    type V = Map<Seq<char>, V>;

    closed spec fn view(&self) -> Map<Seq<char>, V> {
        Map::new(
            |key: Seq<char>| texts(self.keys@).contains(key),
            |key: Seq<char>| self.values@[texts(self.keys@).index_of(key)],
        )
    }
}

impl<V> TextMap<V> {
    /// Whether each key stands once and has a value.
    pub closed spec fn valid(self) -> bool {
        self.keys@.len() == self.values@.len() && texts(self.keys@).no_duplicates()
    }

    proof fn lemma_at(self, i: int)
        requires
            self.valid(),
            0 <= i < self.keys@.len(),
        ensures
            self@.dom().contains(self.keys@[i]@),
            self@[self.keys@[i]@] == self.values@[i],
    {
        let all = texts(self.keys@);
        assert(all[i] == self.keys@[i]@);
        assert(all.contains(all[i]));
        let k = all.index_of(all[i]);
        assert(all[k] == all[i]);
    }

    /// The empty map.
    pub fn new() -> (out: TextMap<V>)
        ensures
            out.valid(),
            out@ == Map::<Seq<char>, V>::empty(),
    {
        let out = TextMap { keys: Vec::new(), values: Vec::new() };
        assert(out@ =~= Map::<Seq<char>, V>::empty());
        out
    }

    /// The place of a key.
    fn position(&self, key: &str) -> (out: Option<usize>)
        requires
            self.valid(),
        ensures
            out is Some <==> self@.dom().contains(key@),
            out matches Some(i) ==> i < self.keys@.len() && self.keys@[i as int]@ == key@,
    {
        let ghost all = texts(self.keys@);
        for i in 0..self.keys.len()
            invariant
                all == texts(self.keys@),
                forall|j: int| 0 <= j < i ==> all[j] != key@,
        {
            assert(all[i as int] == self.keys@[i as int]@);
            if same_text(self.keys[i].as_str(), key) {
                assert(all.contains(key@));
                return Some(i);
            }
        }
        assert(!all.contains(key@));
        None
    }

    /// The value of a key.
    pub fn get(&self, key: &str) -> (out: Option<&V>)
        requires
            self.valid(),
        ensures
            out is Some <==> self@.dom().contains(key@),
            out matches Some(value) ==> *value == self@[key@],
    {
        match self.position(key) {
            Some(i) => {
                proof {
                    self.lemma_at(i as int);
                }
                Some(&self.values[i])
            },
            None => None,
        }
    }

    /// Gives a key a value. What it had before comes back.
    pub fn insert(&mut self, key: String, value: V) -> (out: Option<V>)
        requires
            old(self).valid(),
        ensures
            final(self).valid(),
            final(self)@ == old(self)@.insert(key@, value),
            out is Some <==> old(self)@.dom().contains(key@),
            out matches Some(before) ==> before == old(self)@[key@],
    {
        let ghost before = *self;
        let ghost k = key@;
        match self.position(key.as_str()) {
            Some(i) => {
                proof {
                    before.lemma_at(i as int);
                }
                let mut slot = value;
                let ghost given = slot;
                vec_swap_in(&mut self.values, i, &mut slot);
                proof {
                    assert(self.valid());
                    assert(self@.dom() =~= before@.dom().insert(k));
                    assert forall|y: Seq<char>| self@.dom().contains(y) implies self@[y]
                        == before@.insert(k, given)[y] by {
                        let all = texts(self.keys@);
                        let m = all.index_of(y);
                        assert(all[m] == y);
                        self.lemma_at(m);
                        before.lemma_at(m);
                        if y == k {
                            assert(all[i as int] == k);
                            assert(m == i);
                        } else {
                            assert(m != i);
                        }
                    }
                    assert(self@ =~= before@.insert(k, given));
                }
                Some(slot)
            },
            None => {
                self.keys.push(key);
                self.values.push(value);
                proof {
                    let all = texts(self.keys@);
                    let old_all = texts(before.keys@);
                    assert(all =~= old_all.push(k));
                    assert(!old_all.contains(k));
                    old_all.lemma_push_to_set_commute(k);
                    assert forall|i: int, j: int| 0 <= i < all.len() && 0 <= j < all.len() && i
                        != j implies all[i] != all[j] by {
                        if i < old_all.len() {
                            assert(old_all.contains(old_all[i]));
                        }
                        if j < old_all.len() {
                            assert(old_all.contains(old_all[j]));
                        }
                    }
                    assert(self.valid());
                    assert(self@.dom() =~= before@.dom().insert(k));
                    assert forall|y: Seq<char>| self@.dom().contains(y) implies self@[y]
                        == before@.insert(k, value)[y] by {
                        let m = all.index_of(y);
                        assert(all[m] == y);
                        self.lemma_at(m);
                        if m < old_all.len() {
                            assert(old_all[m] == y);
                            before.lemma_at(m);
                        }
                    }
                    assert(self@ =~= before@.insert(k, value));
                }
                None
            },
        }
    }
}

/// Exchanges an element of a list for another.
fn vec_swap_in<V>(values: &mut Vec<V>, i: usize, slot: &mut V)
    requires
        i < old(values)@.len(),
    ensures
        final(values)@ == old(values)@.update(i as int, *old(slot)),
        *final(slot) == old(values)@[i as int],
{
    let ghost before = values@;
    let mut taken = values.remove(i);
    std::mem::swap(&mut taken, slot);
    values.insert(i, taken);
    assert(values@ =~= before.update(i as int, *old(slot)));
}

impl TextMap<Vec<String>> {
    /// The map with the texts of every key put in order.
    pub fn into_sorted(self) -> (out: TextMap<Vec<String>>)
        requires
            self.valid(),
        ensures
            out.valid(),
            out@.dom() == self@.dom(),
            forall|key: Seq<char>|
                self@.dom().contains(key) ==> sorted_from((#[trigger] out@[key])@, self@[key]@),
    {
        let ghost before = self;
        let mut values: Vec<Vec<String>> = Vec::new();
        let keys = self.keys;
        for value in it: self.values
            invariant
                it.seq() == before.values@,
                values@.len() == it.index(),
                forall|i: int|
                    0 <= i < it.index() ==> sorted_from(
                        (#[trigger] values@[i])@,
                        before.values@[i]@,
                    ),
        {
            values.push(sort(value));
        }
        let out = TextMap { keys, values };
        proof {
            assert(out@.dom() =~= before@.dom());
            assert forall|key: Seq<char>| before@.dom().contains(key) implies sorted_from(
                (#[trigger] out@[key])@,
                before@[key]@,
            ) by {
                let all = texts(before.keys@);
                let m = all.index_of(key);
                assert(all[m] == key);
                before.lemma_at(m);
                out.lemma_at(m);
            }
        }
        out
    }
}

/// One more element and what a filter makes of it.
pub proof fn lemma_filter_step<T>(s: Seq<T>, i: int, pred: spec_fn(T) -> bool)
    requires
        0 <= i < s.len(),
    ensures
        s.take(i + 1).filter(pred) == (if pred(s[i]) {
            s.take(i).filter(pred).push(s[i])
        } else {
            s.take(i).filter(pred)
        }),
{
    assert(s.take(i + 1).drop_last() =~= s.take(i));
    assert(s.take(i + 1).last() == s[i]);
    reveal(Seq::filter);
}

/// A filter makes nothing of nothing.
pub proof fn lemma_filter_nothing<T>(s: Seq<T>, pred: spec_fn(T) -> bool)
    ensures
        s.take(0).filter(pred) == Seq::<T>::empty(),
        s.take(s.len() as int) == s,
{
    reveal(Seq::filter);
    assert(s.take(0).filter(pred) =~= Seq::empty());
    assert(s.take(s.len() as int) =~= s);
}

/// Whether the numbers grow.
pub open spec fn growing(at: Seq<int>) -> bool {
    forall|i: int, j: int| 0 <= i < j < at.len() ==> #[trigger] at[i] < #[trigger] at[j]
}

/// What a filter leaves are the elements at some positions, in order: those, and no others, at which
/// the condition holds. The answer is these positions.
pub proof fn lemma_filter_positions<T>(s: Seq<T>, pred: spec_fn(T) -> bool) -> (at: Seq<int>)
    ensures
        growing(at),
        at.len() == s.filter(pred).len(),
        forall|i: int|
            0 <= i < at.len() ==> 0 <= (#[trigger] at[i]) < s.len() && s.filter(pred)[i]
                == s[at[i]],
        forall|k: int| 0 <= k < s.len() ==> (#[trigger] at.contains(k) <==> pred(s[k])),
    decreases s.len(),
{
    reveal(Seq::filter);
    if s.len() == 0 {
        seq![]
    } else {
        let front = s.drop_last();
        let before = lemma_filter_positions(front, pred);
        let last = s.len() - 1;
        if pred(s.last()) {
            let at = before.push(last);
            assert forall|k: int| 0 <= k < s.len() implies (#[trigger] at.contains(k) <==> pred(
                s[k],
            )) by {
                if k < last {
                    assert(front[k] == s[k]);
                    assert(before.contains(k) <==> pred(s[k]));
                    if before.contains(k) {
                        let i = choose|i: int| 0 <= i < before.len() && before[i] == k;
                        assert(at[i] == k);
                    }
                    if at.contains(k) {
                        let i = choose|i: int| 0 <= i < at.len() && at[i] == k;
                        assert(before[i] == k);
                    }
                } else {
                    assert(at[before.len() as int] == k);
                }
            }
            at
        } else {
            assert forall|k: int| 0 <= k < s.len() implies (#[trigger] before.contains(k)
                <==> pred(s[k])) by {
                if k < last {
                    assert(front[k] == s[k]);
                } else if before.contains(k) {
                    let i = choose|i: int| 0 <= i < before.len() && before[i] == k;
                    assert(before[i] < front.len());
                }
            }
            before
        }
    }
}

/// A text that was put into a set is there, one that was taken out is not, and no other is touched.
pub proof fn lemma_set_keeps_the_rest(
    first: &mut TextSet,
    second: &mut TextSet,
    text: String,
    gone: &str,
    added: bool,
    removed: bool,
    other: Seq<char>,
)
    requires
        old(first).valid(),
        call_ensures(TextSet::insert, (first, text), added),
        old(second).valid(),
        call_ensures(TextSet::remove, (second, gone), removed),
    ensures
        final(first)@.contains(text@),
        other != text@ ==> (final(first)@.contains(other) <==> old(first)@.contains(other)),
        added <==> !old(first)@.contains(text@),
        !final(second)@.contains(gone@),
        other != gone@ ==> (final(second)@.contains(other) <==> old(second)@.contains(other)),
        removed <==> old(second)@.contains(gone@),
{
}

} // verus!
