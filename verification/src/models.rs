//! Model names: how a request names its models, and which models may be used.

use vstd::hash_set::StringHashSet;
use vstd::prelude::*;

use crate::text::{
    affixes_make_up_the_text, chars_of, contains_char, decimal, decimal_text, ends_with, has_suffix, join, same_text,
    split_on, split_pieces_hold_no_separator, split_undoes_join, string_of, texts, trim,
    trim_is_idempotent, trim_range, Blank,
};

verus! {

/// How a request chooses its models.
#[derive(Clone, Copy, Debug, PartialEq, Eq, Structural)]
pub enum RoutingMode {
    /// The ranked candidates, in their order.
    AutoPilotAlias,
    /// The models that the request lists, in its order.
    ExplicitModelList,
    /// The one model that the request names.
    Direct,
}

pub open spec fn autopilot_alias(model: Seq<char>) -> bool {
    model == "chutesai/AutoPilot"@ || model == "chutesai-routing/AutoPilot"@
}

/// The routing mode that a model name asks for.
pub open spec fn routing_mode(model: Seq<char>) -> RoutingMode {
    if autopilot_alias(model) {
        RoutingMode::AutoPilotAlias
    } else if model.contains(',') {
        RoutingMode::ExplicitModelList
    } else {
        RoutingMode::Direct
    }
}

/// Whether a model name stands for automatic selection.
pub fn is_autopilot_alias(model: &str) -> (r: bool)
    ensures
        r == autopilot_alias(model@),
{
    same_text(model, "chutesai/AutoPilot") || same_text(model, "chutesai-routing/AutoPilot")
}

/// The routing mode that a model name asks for.
pub fn routing_mode_for_model(model: &str) -> (r: RoutingMode)
    ensures
        r == routing_mode(model@),
{
    if is_autopilot_alias(model) {
        RoutingMode::AutoPilotAlias
    } else if contains_char(model, ',') {
        RoutingMode::ExplicitModelList
    } else {
        RoutingMode::Direct
    }
}

/// The names of the models that requests may be sent to. While none is known, the
/// suffix of models that run in a trusted environment decides.
pub struct TeeAllowlist {
    names: StringHashSet,
}

impl View for TeeAllowlist {
    type V = Set<Seq<char>>;

    closed spec fn view(&self) -> Set<Seq<char>> {
        self.names@
    }
}

impl TeeAllowlist {
    /// An allowlist without names.
    pub fn new() -> (r: TeeAllowlist)
        ensures
            r@ == Set::<Seq<char>>::empty(),
    {
        TeeAllowlist { names: StringHashSet::new() }
    }

    /// Adds a name.
    pub fn insert(&mut self, name: String)
        ensures
            final(self)@ == old(self)@.insert(name@),
    {
        self.names.insert(name);
    }

    /// Whether the name is on the list.
    pub fn contains(&self, name: &str) -> (r: bool)
        ensures
            r == self@.contains(name@),
    {
        self.names.contains(name)
    }

    /// Whether the list has no names.
    pub fn is_empty(&self) -> (r: bool)
        ensures
            r == (self@ == Set::<Seq<char>>::empty()),
    {
        self.names.is_empty()
    }
}

/// Whether a model may be used: it is on the allowlist or, where that has no
/// names, its name ends with the suffix of trusted models.
pub open spec fn tee_eligible(model: Seq<char>, allowlist: Set<Seq<char>>) -> bool {
    if allowlist == Set::<Seq<char>>::empty() {
        has_suffix(model, "-TEE"@)
    } else {
        allowlist.contains(model)
    }
}

/// Whether a model may be used.
pub fn is_tee_eligible(model: &str, tee_allowlist: &TeeAllowlist) -> (r: bool)
    ensures
        r == tee_eligible(model@, tee_allowlist@),
{
    if tee_allowlist.is_empty() {
        ends_with(model, "-TEE")
    } else {
        tee_allowlist.contains(model)
    }
}

/// The allowlist of the models with the given names.
pub fn allowlist_of_models(ids: Vec<String>) -> (r: TeeAllowlist)
    ensures
        r@ == texts(ids@).to_set(),
{
    let ghost all = texts(ids@);
    let mut out = TeeAllowlist::new();
    let mut i: usize = 0;
    assert(out@ =~= all.take(0).to_set());
    while i < ids.len()
        invariant
            i <= ids@.len(),
            all == texts(ids@),
            out@ == all.take(i as int).to_set(),
        decreases ids@.len() - i,
    {
        let ghost before = all.take(i as int);
        let ghost after = all.take(i + 1);
        out.insert(ids[i].clone());
        proof {
            assert(after == before.push(all[i as int]));
            assert forall|name: Seq<char>| #[trigger]
                out@.contains(name) <==> after.to_set().contains(name) by {
                if before.contains(name) {
                    let j = choose|j: int| 0 <= j < before.len() && before[j] == name;
                    assert(after[j] == name);
                }
                if name == all[i as int] {
                    assert(after[i as int] == name);
                }
                if after.contains(name) && name != all[i as int] {
                    let j = choose|j: int| 0 <= j < after.len() && after[j] == name;
                    assert(before[j] == name);
                }
            }
            assert(out@ =~= after.to_set());
        }
        i += 1;
    }
    assert(all.take(all.len() as int) == all);
    out
}

/// The items that are not empty, each where it first occurs.
pub open spec fn first_seen(items: Seq<Seq<char>>) -> Seq<Seq<char>>
    decreases items.len(),
{
    if items.len() == 0 {
        Seq::empty()
    } else {
        let before = first_seen(items.drop_last());
        if items.last().len() == 0 || before.contains(items.last()) {
            before
        } else {
            before.push(items.last())
        }
    }
}

pub open spec fn trim_each(items: Seq<Seq<char>>) -> Seq<Seq<char>> {
    Seq::new(items.len(), |i: int| trim(items[i], Blank::Ascii))
}

/// The models that a preference list names: the items between commas, without the
/// white space around them, empty and repeated ones left out.
pub open spec fn preference_items(model: Seq<char>) -> Seq<Seq<char>> {
    first_seen(trim_each(split_on(model, ',')))
}

/// Why a preference list is refused.
#[derive(Clone, Debug, PartialEq, Eq)]
pub struct ModelListError {
    pub code: String,
    pub message: String,
}

/// What a refused preference list is told: nothing for a list that is accepted.
pub open spec fn list_refusal(model: Seq<char>, max_items: nat) -> Option<Seq<char>> {
    let count = preference_items(model).len();
    if count == 0 {
        Some("model list is empty"@)
    } else if count > max_items {
        Some("model list exceeds MAX_MODEL_LIST_ITEMS ("@ + decimal(max_items) + ")"@)
    } else {
        None
    }
}

proof fn lemma_split_step(s: Seq<char>, i: int, start: int, done: Seq<Seq<char>>)
    requires
        0 <= start <= i < s.len(),
        split_on(s.take(i), ',') == done.push(s.subrange(start, i)),
    ensures
        s[i] == ',' ==> split_on(s.take(i + 1), ',') == done.push(s.subrange(start, i)).push(
            s.subrange(i + 1, i + 1),
        ),
        s[i] != ',' ==> split_on(s.take(i + 1), ',') == done.push(s.subrange(start, i + 1)),
{
    let t = s.take(i + 1);
    assert(t.drop_last() == s.take(i));
    assert(t.last() == s[i]);
    assert(done.push(s.subrange(start, i)).drop_last() == done);
    assert(s.subrange(start, i).push(s[i]) == s.subrange(start, i + 1));
    assert(s.subrange(i + 1, i + 1) == Seq::<char>::empty());
}

fn note_item(
    chars: &Vec<char>,
    start: usize,
    end: usize,
    out: &mut Vec<String>,
    seen: &mut StringHashSet,
    Ghost(done): Ghost<Seq<Seq<char>>>,
)
    requires
        start <= end <= chars@.len(),
        texts(old(out)@) == first_seen(trim_each(done)),
        forall|t: Seq<char>| #[trigger] old(seen)@.contains(t) <==> texts(old(out)@).contains(t),
    ensures
        texts(final(out)@) == first_seen(
            trim_each(done.push(chars@.subrange(start as int, end as int))),
        ),
        forall|t: Seq<char>| #[trigger]
            final(seen)@.contains(t) <==> texts(final(out)@).contains(t),
{
    let (a, b) = trim_range(chars, start, end, Blank::Ascii);
    let ghost piece = chars@.subrange(start as int, end as int);
    let ghost item = chars@.subrange(a as int, b as int);
    proof {
        let next = trim_each(done.push(piece));
        assert(next.drop_last() == trim_each(done));
        assert(next.last() == item);
    }
    if a == b {
        return;
    }
    let text = string_of(chars, a, b);
    let ghost had = texts(old(out)@);
    if seen.insert(text.clone()) {
        out.push(text);
        assert(texts(out@) == had.push(item));
        assert forall|t: Seq<char>| #[trigger]
            seen@.contains(t) <==> texts(out@).contains(t) by {
            if had.contains(t) {
                let j = choose|j: int| 0 <= j < had.len() && had[j] == t;
                assert(had.push(item)[j] == t);
            }
            if t == item {
                assert(had.push(item)[had.len() as int] == t);
            }
        }
    } else {
        assert(seen@ =~= old(seen)@);
    }
}

/// The models that a preference list names, in its order. The list is refused
/// where it names no model, or more than `max_items`.
pub fn parse_model_preference_list(model: &str, max_items: usize) -> (r: Result<
    Vec<String>,
    ModelListError,
>)
    ensures
        match r {
            Ok(models) => {
                &&& list_refusal(model@, max_items as nat) is None
                &&& texts(models@) == preference_items(model@)
            },
            Err(e) => {
                &&& list_refusal(model@, max_items as nat) == Some(e.message@)
                &&& e.code@ == "invalid_model_list"@
            },
        },
{
    let chars = chars_of(model);
    let mut out: Vec<String> = Vec::new();
    let mut seen = StringHashSet::new();
    let mut start: usize = 0;
    let mut i: usize = 0;
    let ghost mut done: Seq<Seq<char>> = Seq::empty();
    proof {
        assert(chars@.take(0) == Seq::<char>::empty());
        assert(chars@.subrange(0, 0) == Seq::<char>::empty());
        assert(split_on(chars@.take(0), ',') == done.push(chars@.subrange(0, 0)));
        assert(texts(out@) == first_seen(trim_each(done)));
    }
    while i < chars.len()
        invariant
            start <= i <= chars@.len(),
            chars@ == model@,
            split_on(chars@.take(i as int), ',') == done.push(
                chars@.subrange(start as int, i as int),
            ),
            texts(out@) == first_seen(trim_each(done)),
            forall|t: Seq<char>| #[trigger] seen@.contains(t) <==> texts(out@).contains(t),
        decreases chars@.len() - i,
    {
        proof {
            lemma_split_step(chars@, i as int, start as int, done);
        }
        if chars[i] == ',' {
            note_item(&chars, start, i, &mut out, &mut seen, Ghost(done));
            proof {
                done = done.push(chars@.subrange(start as int, i as int));
            }
            start = i + 1;
        }
        i += 1;
    }
    note_item(&chars, start, i, &mut out, &mut seen, Ghost(done));
    assert(chars@.take(chars@.len() as int) == model@);
    assert(texts(out@) == preference_items(model@));

    if out.len() == 0 {
        return Err(
            ModelListError {
                code: "invalid_model_list".to_owned(),
                message: "model list is empty".to_owned(),
            },
        );
    }
    if out.len() > max_items {
        let mut message = "model list exceeds MAX_MODEL_LIST_ITEMS (".to_owned();
        message.append(decimal_text(max_items as u64).as_str());
        message.append(")");
        return Err(ModelListError { code: "invalid_model_list".to_owned(), message });
    }
    Ok(out)
}

proof fn lemma_first_seen(items: Seq<Seq<char>>)
    ensures
        first_seen(items).no_duplicates(),
        first_seen(items).len() <= items.len(),
        forall|item: Seq<char>| #[trigger]
            first_seen(items).contains(item) <==> items.contains(item) && item.len() > 0,
    decreases items.len(),
{
    if items.len() > 0 {
        let before = items.drop_last();
        let kept = first_seen(before);
        lemma_first_seen(before);
        assert(items == before.push(items.last()));
        assert forall|item: Seq<char>| #[trigger]
            first_seen(items).contains(item) <==> items.contains(item) && item.len() > 0 by {
            if first_seen(items).contains(item) {
                if !kept.contains(item) {
                    assert(item == items.last());
                } else {
                    let i = choose|i: int| 0 <= i < before.len() && before[i] == item;
                    assert(items[i] == item);
                }
            }
            if items.contains(item) && item.len() > 0 {
                let i = choose|i: int| 0 <= i < items.len() && items[i] == item;
                if i < before.len() {
                    assert(before[i] == item);
                    assert(kept.contains(item));
                    let j = choose|j: int| 0 <= j < kept.len() && kept[j] == item;
                    assert(first_seen(items)[j] == item);
                } else if !kept.contains(item) {
                    assert(first_seen(items)[kept.len() as int] == item);
                }
            }
        }
    }
}

proof fn lemma_first_seen_keeps(items: Seq<Seq<char>>)
    requires
        items.no_duplicates(),
        forall|i: int| 0 <= i < items.len() ==> (#[trigger] items[i]).len() > 0,
    ensures
        first_seen(items) == items,
    decreases items.len(),
{
    if items.len() > 0 {
        let before = items.drop_last();
        lemma_first_seen_keeps(before);
        assert(items == before.push(items.last()));
    }
}

/// Whether text can be an item of a preference list: it is not empty, holds no
/// comma, and has no white space around it.
pub open spec fn list_item(item: Seq<char>) -> bool {
    item.len() > 0 && !item.contains(',') && trim(item, Blank::Ascii) == item
}

/// A preference list names each model once, without white space around it, and
/// names every model that stands between its commas.
pub proof fn preference_items_are_clean(model: Seq<char>)
    ensures
        preference_items(model).no_duplicates(),
        forall|i: int|
            0 <= i < preference_items(model).len() ==> list_item(
                #[trigger] preference_items(model)[i],
            ),
        forall|i: int|
            0 <= i < split_on(model, ',').len() && trim(
                #[trigger] split_on(model, ',')[i],
                Blank::Ascii,
            ).len() > 0 ==> preference_items(model).contains(
                trim(split_on(model, ',')[i], Blank::Ascii),
            ),
{
    let pieces = split_on(model, ',');
    let trims = trim_each(pieces);
    split_pieces_hold_no_separator(model, ',');
    lemma_first_seen(trims);
    let items = preference_items(model);
    assert forall|i: int| 0 <= i < items.len() implies list_item(#[trigger] items[i]) by {
        assert(items.contains(items[i]));
        let j = choose|j: int| 0 <= j < trims.len() && trims[j] == items[i];
        trim_is_idempotent(pieces[j], Blank::Ascii);
        assert(!pieces[j].contains(','));
    }
    assert forall|i: int|
        0 <= i < pieces.len() && trim(#[trigger] pieces[i], Blank::Ascii).len()
            > 0 implies items.contains(trim(pieces[i], Blank::Ascii)) by {
        assert(trims[i] == trim(pieces[i], Blank::Ascii));
        assert(trims.contains(trims[i]));
    }
}

/// Reading back a preference list that was written with commas gives the models
/// that were written, in their order.
pub proof fn preference_list_reads_back(items: Seq<Seq<char>>)
    requires
        items.no_duplicates(),
        forall|i: int| 0 <= i < items.len() ==> list_item(#[trigger] items[i]),
    ensures
        preference_items(join(items, ","@)) == items,
{
    reveal_strlit(",");
    assert(","@ == seq![',']);
    if items.len() == 0 {
        assert(join(items, ","@) == Seq::<char>::empty());
        assert(split_on(Seq::<char>::empty(), ',') == seq![Seq::<char>::empty()]);
        let trims = trim_each(seq![Seq::<char>::empty()]);
        assert(trims.drop_last() == Seq::<Seq<char>>::empty());
        assert(first_seen(Seq::<Seq<char>>::empty()) == Seq::<Seq<char>>::empty());
        assert(trims.last() == Seq::<char>::empty());
    } else {
        split_undoes_join(items, ',');
        assert(trim_each(items) == items);
        lemma_first_seen_keeps(items);
    }
}

/// Writing a preference list in its plain form, the models with commas between
/// them, does not change what it says.
pub proof fn preference_list_has_a_plain_form(model: Seq<char>)
    ensures
        preference_items(join(preference_items(model), ","@)) == preference_items(model),
{
    preference_items_are_clean(model);
    preference_list_reads_back(preference_items(model));
}

/// The alias for automatic selection is itself no model that may be used, unless
/// the allowlist names it.
pub proof fn alias_is_not_eligible(model: Seq<char>, allowlist: Set<Seq<char>>)
    requires
        autopilot_alias(model),
        !allowlist.contains(model),
    ensures
        !tee_eligible(model, allowlist),
{
    reveal_strlit("chutesai/AutoPilot");
    reveal_strlit("chutesai-routing/AutoPilot");
    reveal_strlit("-TEE");
    if has_suffix(model, "-TEE"@) {
        let end = model.skip(model.len() - 4);
        assert(end[3] == model.last());
        assert(end[3] == "-TEE"@[3]);
    }
}

/// With an allowlist, the names on it decide alone; without one, the suffix does.
pub proof fn eligibility_follows_the_allowlist(model: Seq<char>, allowlist: Set<Seq<char>>)
    ensures
        allowlist.contains(model) ==> tee_eligible(model, allowlist),
        allowlist != Set::<Seq<char>>::empty() && !allowlist.contains(model) ==> !tee_eligible(
            model,
            allowlist,
        ),
        tee_eligible(model, Set::empty()) == has_suffix(model, "-TEE"@),
{
}

/// Two names stand for automatic selection and no other does; any other name with
/// a comma in it is a list, and any other without one is a model.
pub proof fn names_say_how_to_route(model: Seq<char>)
    ensures
        routing_mode(model) == RoutingMode::AutoPilotAlias <==> model == "chutesai/AutoPilot"@
            || model == "chutesai-routing/AutoPilot"@,
        routing_mode(model) == RoutingMode::ExplicitModelList <==> model != "chutesai/AutoPilot"@
            && model != "chutesai-routing/AutoPilot"@ && model.contains(','),
        routing_mode(model) == RoutingMode::Direct <==> model != "chutesai/AutoPilot"@ && model
            != "chutesai-routing/AutoPilot"@ && !model.contains(','),
{
}

/// With names on the allowlist, a model may be used if and only if it is one of
/// them; without any, if and only if something and `-TEE` make up its name.
pub proof fn models_may_be_used_by_name_or_suffix(
    model: Seq<char>,
    allowlist: Set<Seq<char>>,
    name: Seq<char>,
    head: Seq<char>,
)
    ensures
        allowlist.contains(name) ==> tee_eligible(model, allowlist) == allowlist.contains(model),
        tee_eligible(head + "-TEE"@, Set::<Seq<char>>::empty()),
        tee_eligible(model, Set::<Seq<char>>::empty()) ==> model.len() >= 4 && model
            == model.take(model.len() - 4) + "-TEE"@,
{
    reveal_strlit("-TEE");
    if allowlist.contains(name) {
        assert(allowlist != Set::<Seq<char>>::empty());
    }
    affixes_make_up_the_text(head, "-TEE"@, model);
}

proof fn lemma_first_seen_order(items: Seq<Seq<char>>, p: int, q: int) -> (i: int)
    requires
        0 <= p < q < first_seen(items).len(),
    ensures
        0 <= i < items.len(),
        items[i] == first_seen(items)[p],
        forall|j: int| 0 <= j <= i ==> #[trigger] items[j] != first_seen(items)[q],
    decreases items.len(),
{
    let before = items.drop_last();
    let had = first_seen(before);
    let have = first_seen(items);
    lemma_first_seen(before);
    if q < had.len() {
        assert(have[p] == had[p] && have[q] == had[q]);
        let i = lemma_first_seen_order(before, p, q);
        assert(items[i] == before[i]);
        assert forall|j: int| 0 <= j <= i implies #[trigger] items[j] != have[q] by {
            assert(before[j] == items[j]);
        }
        i
    } else {
        assert(have[p] == had[p]);
        assert(have[q] == items.last());
        assert(had.contains(had[p]));
        assert(before.contains(had[p]));
        let i = choose|i: int| 0 <= i < before.len() && before[i] == had[p];
        assert(items[i] == before[i]);
        assert forall|j: int| 0 <= j <= i implies #[trigger] items[j] != have[q] by {
            assert(before[j] == items[j]);
            if before[j] == items.last() {
                assert(before.contains(items.last()));
                assert(had.contains(items.last()));
            }
        }
        i
    }
}

/// The models of a preference list come in the order in which the list first names
/// them: before the list names a later one, it has named the earlier one.
pub proof fn preference_lists_keep_their_order(model: Seq<char>, p: int, q: int) -> (i: int)
    requires
        0 <= p < q < preference_items(model).len(),
    ensures
        0 <= i < split_on(model, ',').len(),
        trim(split_on(model, ',')[i], Blank::Ascii) == preference_items(model)[p],
        forall|j: int|
            0 <= j <= i ==> trim(#[trigger] split_on(model, ',')[j], Blank::Ascii)
                != preference_items(model)[q],
{
    let pieces = split_on(model, ',');
    let trims = trim_each(pieces);
    let i = lemma_first_seen_order(trims, p, q);
    assert forall|j: int| 0 <= j <= i implies trim(#[trigger] pieces[j], Blank::Ascii)
        != preference_items(model)[q] by {
        assert(trims[j] == trim(pieces[j], Blank::Ascii));
    }
    i
}

/// Every model of a preference list stands between its commas, but for the white
/// space around it.
pub proof fn preference_items_come_from_the_list(model: Seq<char>, p: int) -> (i: int)
    requires
        0 <= p < preference_items(model).len(),
    ensures
        0 <= i < split_on(model, ',').len(),
        trim(split_on(model, ',')[i], Blank::Ascii) == preference_items(model)[p],
        preference_items(model)[p].len() > 0,
{
    let trims = trim_each(split_on(model, ','));
    lemma_first_seen(trims);
    assert(preference_items(model).contains(preference_items(model)[p]));
    choose|i: int| 0 <= i < trims.len() && trims[i] == preference_items(model)[p]
}

/// A preference list is accepted if and only if it names a model, and no more of
/// them than allowed; a refusal says which of the two is wrong, and how many are
/// allowed.
pub proof fn lists_are_accepted_up_to_the_limit(model: Seq<char>, max_items: nat)
    ensures
        list_refusal(model, max_items) is None <==> 1 <= preference_items(model).len()
            <= max_items,
        preference_items(model).len() == 0 ==> list_refusal(model, max_items) == Some(
            "model list is empty"@,
        ),
        preference_items(model).len() > max_items && preference_items(model).len() > 0
            ==> list_refusal(model, max_items) == Some(
            "model list exceeds MAX_MODEL_LIST_ITEMS ("@ + decimal(max_items) + ")"@,
        ),
{
}

} // verus!
