//! The model that each client was last served by.

use vstd::prelude::*;
use vstd::set_lib::lemma_subset_equality;

use crate::config::Nanos;
use crate::text::same_text;

verus! {

/// The model that a client sticks to.
#[derive(Debug)]
pub struct StickyModelSelection {
    pub model: String,
    pub last_used_at: Nanos,
}

pub struct StickyView {
    pub model: Seq<char>,
    pub last_used_at: nat,
}

impl View for StickyModelSelection {
    type V = StickyView;

    open spec fn view(&self) -> StickyView {
        StickyView { model: self.model@, last_used_at: self.last_used_at as nat }
    }
}

/// The time that passed from `then` to `now`; none if `then` is not past.
pub open spec fn time_since(now: nat, then: nat) -> nat {
    if now > then {
        (now - then) as nat
    } else {
        0
    }
}

/// The time that passed from `then` to `now`.
pub(crate) fn elapsed(now: Nanos, then: Nanos) -> (r: Nanos)
    ensures
        r as nat == time_since(now as nat, then as nat),
{
    if now > then {
        now - then
    } else {
        0
    }
}

/// The selections that were used within the last `ttl`; a `ttl` of zero keeps none.
pub open spec fn unexpired(
    table: Map<Seq<char>, StickyView>,
    ttl: nat,
    now: nat,
) -> Map<Seq<char>, StickyView> {
    if ttl == 0 {
        Map::empty()
    } else {
        table.restrict(
            Set::new(
                |key: Seq<char>|
                    table.contains_key(key) && time_since(now, table[key].last_used_at) <= ttl,
            ),
        )
    }
}

/// Whether `after` is `before` cut down to at most `max` selections, of which none
/// was used earlier than one that is gone.
pub open spec fn capped(
    before: Map<Seq<char>, StickyView>,
    max: nat,
    after: Map<Seq<char>, StickyView>,
) -> bool {
    &&& after.submap_of(before)
    &&& after.dom().finite()
    &&& before.dom().finite()
    &&& after.dom().len() == if before.dom().len() > max {
        max
    } else {
        before.dom().len()
    }
    &&& forall|gone: Seq<char>, kept: Seq<char>|
        before.contains_key(gone) && !after.contains_key(gone) && after.contains_key(kept)
            ==> (#[trigger] before[gone]).last_used_at <= (#[trigger] before[kept]).last_used_at
}

struct StickyEntry {
    key: String,
    selection: StickyModelSelection,
}

spec fn distinct(entries: Seq<StickyEntry>) -> bool {
    forall|i: int, j: int|
        0 <= i < j < entries.len() ==> (#[trigger] entries[i]).key@ != (#[trigger] entries[j]).key@
}

spec fn has_key(entries: Seq<StickyEntry>, key: Seq<char>) -> bool {
    exists|i: int| 0 <= i < entries.len() && (#[trigger] entries[i]).key@ == key
}

spec fn table_of(entries: Seq<StickyEntry>) -> Map<Seq<char>, StickyView>
    decreases entries.len(),
{
    if entries.len() == 0 {
        Map::empty()
    } else {
        table_of(entries.drop_last()).insert(entries.last().key@, entries.last().selection@)
    }
}

proof fn lemma_table_keys(entries: Seq<StickyEntry>, key: Seq<char>)
    ensures
        table_of(entries).contains_key(key) <==> has_key(entries, key),
    decreases entries.len(),
{
    if entries.len() > 0 {
        let before = entries.drop_last();
        lemma_table_keys(before, key);
        if has_key(before, key) {
            let i = choose|i: int| 0 <= i < before.len() && (#[trigger] before[i]).key@ == key;
            assert(entries[i].key@ == key);
        }
        if has_key(entries, key) {
            let i = choose|i: int| 0 <= i < entries.len() && (#[trigger] entries[i]).key@ == key;
            if i < before.len() {
                assert(before[i].key@ == key);
            }
        }
    }
}

proof fn lemma_table_at(entries: Seq<StickyEntry>, i: int)
    requires
        distinct(entries),
        0 <= i < entries.len(),
    ensures
        table_of(entries).contains_key(entries[i].key@),
        table_of(entries)[entries[i].key@] == entries[i].selection@,
    decreases entries.len(),
{
    if i < entries.len() - 1 {
        let before = entries.drop_last();
        assert(distinct(before));
        lemma_table_at(before, i);
        assert(before[i] == entries[i]);
        assert(entries[i].key@ != entries[entries.len() - 1].key@);
    }
}

proof fn lemma_table_len(entries: Seq<StickyEntry>)
    requires
        distinct(entries),
    ensures
        table_of(entries).dom().finite(),
        table_of(entries).dom().len() == entries.len(),
    decreases entries.len(),
{
    if entries.len() > 0 {
        let before = entries.drop_last();
        assert(distinct(before));
        lemma_table_len(before);
        lemma_table_keys(before, entries.last().key@);
        if has_key(before, entries.last().key@) {
            let i = choose|i: int|
                0 <= i < before.len() && (#[trigger] before[i]).key@ == entries.last().key@;
            assert(entries[i].key@ != entries[entries.len() - 1].key@);
        }
        assert(table_of(entries).dom() =~= table_of(before).dom().insert(entries.last().key@));
    }
}

proof fn lemma_table_push(entries: Seq<StickyEntry>, entry: StickyEntry)
    requires
        distinct(entries),
        !has_key(entries, entry.key@),
    ensures
        distinct(entries.push(entry)),
        table_of(entries.push(entry)) == table_of(entries).insert(entry.key@, entry.selection@),
{
    assert(entries.push(entry).drop_last() == entries);
}

proof fn lemma_table_update(entries: Seq<StickyEntry>, i: int, entry: StickyEntry)
    requires
        distinct(entries),
        0 <= i < entries.len(),
        entry.key@ == entries[i].key@,
    ensures
        distinct(entries.update(i, entry)),
        table_of(entries.update(i, entry)) == table_of(entries).insert(
            entry.key@,
            entry.selection@,
        ),
{
    let new = entries.update(i, entry);
    assert(distinct(new));
    let want = table_of(entries).insert(entry.key@, entry.selection@);
    assert forall|key: Seq<char>| #[trigger]
        table_of(new).contains_key(key) <==> want.contains_key(key) by {
        lemma_table_keys(entries, key);
        lemma_table_keys(new, key);
        if has_key(entries, key) {
            let j = choose|j: int| 0 <= j < entries.len() && (#[trigger] entries[j]).key@ == key;
            assert(new[j].key@ == key);
        }
        if has_key(new, key) {
            let j = choose|j: int| 0 <= j < new.len() && (#[trigger] new[j]).key@ == key;
            assert(entries[j].key@ == key);
        }
    }
    assert forall|key: Seq<char>| table_of(new).contains_key(key) implies #[trigger] table_of(
        new,
    )[key] == want[key] by {
        lemma_table_keys(new, key);
        let j = choose|j: int| 0 <= j < new.len() && (#[trigger] new[j]).key@ == key;
        lemma_table_at(new, j);
        lemma_table_at(entries, j);
        if j != i {
            assert(entries[j].key@ != entries[i].key@);
        }
    }
    assert(table_of(new) =~= want);
}

proof fn lemma_table_remove(entries: Seq<StickyEntry>, i: int)
    requires
        distinct(entries),
        0 <= i < entries.len(),
    ensures
        distinct(entries.remove(i)),
        table_of(entries.remove(i)) == table_of(entries).remove(entries[i].key@),
{
    let new = entries.remove(i);
    assert forall|a: int, b: int| 0 <= a < b < new.len() implies (#[trigger] new[a]).key@ != (
    #[trigger] new[b]).key@ by {
        let x = if a < i {
            a
        } else {
            a + 1
        };
        let y = if b < i {
            b
        } else {
            b + 1
        };
        assert(new[a] == entries[x]);
        assert(new[b] == entries[y]);
    }
    let want = table_of(entries).remove(entries[i].key@);
    assert forall|key: Seq<char>| #[trigger]
        table_of(new).contains_key(key) <==> want.contains_key(key) by {
        lemma_table_keys(entries, key);
        lemma_table_keys(new, key);
        if has_key(entries, key) && key != entries[i].key@ {
            let j = choose|j: int| 0 <= j < entries.len() && (#[trigger] entries[j]).key@ == key;
            let k = if j < i {
                j
            } else {
                j - 1
            };
            assert(new[k] == entries[j]);
        }
        if has_key(new, key) {
            let k = choose|k: int| 0 <= k < new.len() && (#[trigger] new[k]).key@ == key;
            let j = if k < i {
                k
            } else {
                k + 1
            };
            assert(entries[j] == new[k]);
            assert(entries[j].key@ != entries[i].key@);
        }
    }
    assert forall|key: Seq<char>| table_of(new).contains_key(key) implies #[trigger] table_of(
        new,
    )[key] == want[key] by {
        lemma_table_keys(new, key);
        let k = choose|k: int| 0 <= k < new.len() && (#[trigger] new[k]).key@ == key;
        let j = if k < i {
            k
        } else {
            k + 1
        };
        assert(entries[j] == new[k]);
        lemma_table_at(new, k);
        lemma_table_at(entries, j);
    }
    assert(table_of(new) =~= want);
}

/// The models that clients stick to, by client key.
pub struct StickyTable {
    entries: Vec<StickyEntry>,
}

impl View for StickyTable {
    type V = Map<Seq<char>, StickyView>;

    closed spec fn view(&self) -> Map<Seq<char>, StickyView> {
        table_of(self.entries@)
    }
}

fn position(entries: &Vec<StickyEntry>, key: &str) -> (r: Option<usize>)
    requires
        distinct(entries@),
    ensures
        match r {
            Some(i) => i < entries@.len() && entries@[i as int].key@ == key@,
            None => !has_key(entries@, key@),
        },
{
    let mut i: usize = 0;
    while i < entries.len()
        invariant
            i <= entries@.len(),
            forall|j: int| 0 <= j < i ==> (#[trigger] entries@[j]).key@ != key@,
        decreases entries@.len() - i,
    {
        if same_text(entries[i].key.as_str(), key) {
            return Some(i);
        }
        i += 1;
    }
    None
}

impl StickyTable {
    #[verifier::type_invariant]
    spec fn keys_are_distinct(self) -> bool {
        distinct(self.entries@)
    }

    /// A table without selections.
    pub fn new() -> (r: StickyTable)
        ensures
            r@ == Map::<Seq<char>, StickyView>::empty(),
    {
        StickyTable { entries: Vec::new() }
    }

    /// The number of selections.
    pub fn len(&self) -> (r: usize)
        ensures
            self@.dom().finite(),
            r as nat == self@.dom().len(),
    {
        proof {
            use_type_invariant(self);
            lemma_table_len(self.entries@);
        }
        self.entries.len()
    }

    /// The selection of a client, if it has one.
    pub fn get(&self, key: &str) -> (r: Option<&StickyModelSelection>)
        ensures
            match r {
                Some(selection) => self@.contains_key(key@) && self@[key@] == selection@,
                None => !self@.contains_key(key@),
            },
    {
        proof {
            use_type_invariant(self);
            lemma_table_keys(self.entries@, key@);
        }
        match position(&self.entries, key) {
            Some(i) => {
                proof {
                    lemma_table_at(self.entries@, i as int);
                }
                Some(&self.entries[i].selection)
            },
            None => None,
        }
    }

    /// Gives a client a selection in place of the one it has.
    pub fn insert(&mut self, key: String, model: String, now: Nanos)
        ensures
            final(self)@ == old(self)@.insert(
                key@,
                (StickyView { model: model@, last_used_at: now as nat }),
            ),
    {
        proof {
            use_type_invariant(&*self);
        }
        let mut entries: Vec<StickyEntry> = Vec::new();
        std::mem::swap(&mut entries, &mut self.entries);
        let found = position(&entries, key.as_str());
        let entry = StickyEntry {
            key,
            selection: StickyModelSelection { model, last_used_at: now },
        };
        match found {
            Some(i) => {
                proof {
                    lemma_table_update(entries@, i as int, entry);
                }
                entries.set(i, entry);
            },
            None => {
                proof {
                    lemma_table_push(entries@, entry);
                }
                entries.push(entry);
            },
        }
        self.entries = entries;
    }

    /// Takes the selection from a client.
    pub fn remove(&mut self, key: &str)
        ensures
            final(self)@ == old(self)@.remove(key@),
    {
        proof {
            use_type_invariant(&*self);
            lemma_table_keys(self.entries@, key@);
        }
        let mut entries: Vec<StickyEntry> = Vec::new();
        std::mem::swap(&mut entries, &mut self.entries);
        match position(&entries, key) {
            Some(i) => {
                proof {
                    lemma_table_remove(entries@, i as int);
                }
                entries.remove(i);
            },
            None => {
                assert(table_of(entries@).remove(key@) =~= table_of(entries@));
            },
        }
        self.entries = entries;
    }

    /// Drops the selections that were not used within the last `ttl`.
    pub fn evict_expired(&mut self, ttl: Nanos, now: Nanos)
        ensures
            final(self)@ == unexpired(old(self)@, ttl as nat, now as nat),
    {
        proof {
            use_type_invariant(&*self);
        }
        let mut entries: Vec<StickyEntry> = Vec::new();
        std::mem::swap(&mut entries, &mut self.entries);
        if ttl == 0 {
            return;
        }
        let ghost all = entries@;
        let ghost t = ttl as nat;
        let ghost n = now as nat;
        let mut kept: Vec<StickyEntry> = Vec::new();
        assert(table_of(kept@) =~= unexpired(table_of(all.take(0)), t, n));
        for entry in it: entries
            invariant
                ttl > 0,
                t == ttl as nat,
                n == now as nat,
                it.seq() == all,
                distinct(all),
                distinct(kept@),
                table_of(kept@) == unexpired(table_of(all.take(it.index())), t, n),
        {
            let ghost i = it.index();
            let ghost before = all.take(i);
            let ghost was = kept@;
            proof {
                assert(all.take(i + 1) == before.push(entry));
                assert(distinct(before));
                if has_key(before, entry.key@) {
                    let j = choose|j: int|
                        0 <= j < before.len() && (#[trigger] before[j]).key@ == entry.key@;
                    assert(all[j].key@ != all[i].key@);
                }
                lemma_table_push(before, entry);
                lemma_table_keys(before, entry.key@);
                lemma_table_keys(was, entry.key@);
            }
            if elapsed(now, entry.selection.last_used_at) <= ttl {
                proof {
                    lemma_table_push(was, entry);
                }
                kept.push(entry);
                assert(table_of(kept@) =~= unexpired(table_of(all.take(i + 1)), t, n));
            } else {
                assert(table_of(kept@) =~= unexpired(table_of(all.take(i + 1)), t, n));
            }
        }
        assert(all.take(all.len() as int) == all);
        self.entries = kept;
    }

    /// Drops the selections that were used longest ago until at most
    /// `max_entries` are left.
    pub fn enforce_cap(&mut self, max_entries: usize)
        ensures
            capped(old(self)@, max_entries as nat, final(self)@),
    {
        proof {
            use_type_invariant(&*self);
        }
        let mut entries: Vec<StickyEntry> = Vec::new();
        std::mem::swap(&mut entries, &mut self.entries);
        let ghost all = entries@;
        let ghost whole = table_of(all);
        proof {
            lemma_table_len(all);
        }
        while entries.len() > max_entries
            invariant
                distinct(entries@),
                entries@.len() <= all.len(),
                entries@.len() < all.len() ==> entries@.len() >= max_entries,
                table_of(entries@).submap_of(whole),
                forall|gone: Seq<char>, kept: Seq<char>|
                    whole.contains_key(gone) && !table_of(entries@).contains_key(gone)
                        && table_of(entries@).contains_key(kept) ==> (
                    #[trigger] whole[gone]).last_used_at <= (#[trigger] whole[kept]).last_used_at,
            decreases entries@.len(),
        {
            let ghost held = entries@;
            let mut oldest: usize = 0;
            let mut i: usize = 1;
            while i < entries.len()
                invariant
                    oldest < i <= entries@.len(),
                    forall|j: int|
                        0 <= j < i ==> entries@[oldest as int].selection.last_used_at <= (
                        #[trigger] entries@[j]).selection.last_used_at,
                decreases entries@.len() - i,
            {
                if entries[i].selection.last_used_at < entries[oldest].selection.last_used_at {
                    oldest = i;
                }
                i += 1;
            }
            proof {
                lemma_table_remove(held, oldest as int);
                lemma_table_at(held, oldest as int);
                let key = held[oldest as int].key@;
                let after = table_of(held).remove(key);
                assert forall|gone: Seq<char>, kept: Seq<char>|
                    whole.contains_key(gone) && !after.contains_key(gone) && after.contains_key(
                        kept,
                    ) implies (#[trigger] whole[gone]).last_used_at <= (
                #[trigger] whole[kept]).last_used_at by {
                    if gone == key {
                        lemma_table_keys(held, kept);
                        let j = choose|j: int|
                            0 <= j < held.len() && (#[trigger] held[j]).key@ == kept;
                        lemma_table_at(held, j);
                        assert(whole.contains_key(kept));
                    } else {
                        assert(!table_of(held).contains_key(gone));
                        assert(table_of(held).contains_key(kept));
                    }
                }
            }
            entries.remove(oldest);
        }
        proof {
            lemma_table_len(entries@);
        }
        self.entries = entries;
    }
}

/// A client's last selection is found again within the time to live, as long as
/// the table had room for it or every other selection was older.
pub proof fn selection_is_remembered(
    before: Map<Seq<char>, StickyView>,
    key: Seq<char>,
    model: Seq<char>,
    now: nat,
    max: nat,
    after: Map<Seq<char>, StickyView>,
    ttl: nat,
    later: nat,
)
    requires
        capped(before.insert(key, StickyView { model, last_used_at: now }), max, after),
        before.insert(key, StickyView { model, last_used_at: now }).dom().len() <= max || (max > 0
            && forall|other: Seq<char>|
            before.contains_key(other) && other != key ==> (#[trigger] before[other]).last_used_at
                < now),
        ttl > 0,
        time_since(later, now) <= ttl,
    ensures
        unexpired(after, ttl, later).contains_key(key),
        unexpired(after, ttl, later)[key].model == model,
{
    let whole = before.insert(key, StickyView { model, last_used_at: now });
    if whole.dom().len() <= max {
        nothing_is_dropped_below_the_cap(whole, max, after);
    } else if !after.contains_key(key) {
        assert(after.dom().len() > 0);
        let kept = after.dom().choose();
        assert(after.dom().contains(kept));
        assert(whole.dom().contains(kept));
        assert(before[kept].last_used_at < now);
        assert(whole[key].last_used_at <= whole[kept].last_used_at);
        assert(false);
    }
    assert(after.dom().contains(key));
    assert(whole.dom().contains(key));
    assert(after[key] == whole[key]);
}

/// A table that is not over the cap is left as it is.
pub proof fn nothing_is_dropped_below_the_cap(
    before: Map<Seq<char>, StickyView>,
    max: nat,
    after: Map<Seq<char>, StickyView>,
)
    requires
        capped(before, max, after),
        before.dom().len() <= max,
    ensures
        after == before,
{
    assert forall|key: Seq<char>| #[trigger] after.dom().contains(key) implies before.dom().contains(
        key,
    ) by {
        assert(after.contains_key(key));
    }
    lemma_subset_equality(after.dom(), before.dom());
    assert forall|key: Seq<char>| #[trigger] after.contains_key(key) implies after[key]
        == before[key] by {
        assert(before.dom().contains(key));
    }
    assert(after =~= before);
}

/// The cap holds, and what is dropped was used no later than what stays.
pub proof fn oldest_selections_are_dropped(
    before: Map<Seq<char>, StickyView>,
    max: nat,
    after: Map<Seq<char>, StickyView>,
    gone: Seq<char>,
    kept: Seq<char>,
)
    requires
        capped(before, max, after),
        before.contains_key(gone),
        !after.contains_key(gone),
        after.contains_key(kept),
    ensures
        after.dom().len() <= max,
        before[gone].last_used_at <= after[kept].last_used_at,
{
    assert(after.dom().contains(kept));
    assert(before.dom().contains(kept));
    assert(before[gone].last_used_at <= before[kept].last_used_at);
}

/// A selection is found again if and only if it was used within the time to live;
/// the others are as they were.
pub proof fn selections_expire(
    table: Map<Seq<char>, StickyView>,
    ttl: nat,
    now: nat,
    key: Seq<char>,
)
    ensures
        unexpired(table, ttl, now).contains_key(key) <==> ttl > 0 && table.contains_key(key)
            && time_since(now, table[key].last_used_at) <= ttl,
        unexpired(table, ttl, now).contains_key(key) ==> unexpired(table, ttl, now)[key]
            == table[key],
{
}

/// Looking a selection up does not change when it expires: dropping what has
/// expired earlier makes no difference later.
pub proof fn expiry_does_not_depend_on_lookups(
    table: Map<Seq<char>, StickyView>,
    ttl: nat,
    now: nat,
    later: nat,
)
    requires
        now <= later,
    ensures
        unexpired(unexpired(table, ttl, now), ttl, later) == unexpired(table, ttl, later),
{
    assert(unexpired(unexpired(table, ttl, now), ttl, later) =~= unexpired(table, ttl, later));
}

/// Time passes by the difference of two readings of the clock, and never backwards.
pub proof fn time_passes_by_the_difference(now: nat, then: nat)
    ensures
        time_since(then + now, then) == now,
        now <= then ==> time_since(now, then) == 0,
{
}

/// A selection shows the model and the time that it holds.
pub proof fn selections_show_their_fields(selection: StickyModelSelection)
    ensures
        selection@.model == selection.model@,
        selection@.last_used_at == selection.last_used_at,
{
}

/// A selection is found at a time if and only if there is a time to live and no
/// more of it has passed since the selection was used. It is then as it was.
pub proof fn selections_last_for_their_time_to_live(
    table: Map<Seq<char>, StickyView>,
    ttl: nat,
    now: nat,
    key: Seq<char>,
)
    ensures
        unexpired(table, ttl, now).contains_key(key) <==> ttl > 0 && table.contains_key(key) && now
            <= table[key].last_used_at + ttl,
        unexpired(table, ttl, now).contains_key(key) ==> unexpired(table, ttl, now)[key].model
            == table[key].model && unexpired(table, ttl, now)[key].last_used_at
            == table[key].last_used_at,
{
}

/// Cutting a table down to a cap leaves as many selections as the cap allows, or
/// all of them, and leaves each as it was. One that is gone was used no later than
/// any that stays.
pub proof fn cap_leaves_the_latest(
    before: Map<Seq<char>, StickyView>,
    max: nat,
    after: Map<Seq<char>, StickyView>,
    key: Seq<char>,
    other: Seq<char>,
)
    requires
        capped(before, max, after),
    ensures
        before.dom().len() > max ==> after.dom().len() == max,
        before.dom().len() <= max ==> after.dom().len() == before.dom().len(),
        after.contains_key(key) ==> before.contains_key(key) && after[key] == before[key],
        before.contains_key(other) && !after.contains_key(other) && after.contains_key(key)
            ==> before[other].last_used_at <= before[key].last_used_at,
{
    if after.contains_key(key) {
        assert(after.dom().contains(key));
        assert(before.dom().contains(key));
    }
}

} // verus!
