//! The dispatch table and the request dispatcher.
//!
//! A compiled system is flattened into a table keyed by endpoint; every rule
//! declared for the same endpoint is kept, in declaration order, as one
//! scenario variant. Dispatching looks the endpoint up by exact match and
//! selects the next variant round-robin: a per-endpoint cursor starts at
//! zero and advances by one, wrapping, on every dispatch to that endpoint.
//! Table structure and rule contents never change after construction; only
//! the cursors move.

use vstd::prelude::*;
use vstd::arithmetic::div_mod::{lemma_mod_multiples_vanish, lemma_small_mod};
use crate::compile::str_eq;
use crate::model::compiled::{
    EndpointCore, EndpointModel, RuleCore, RuleModel, ApiSetModel, SystemCore, SystemModel,
};

verus! {

// ---------------------------------------------------------------------------
// Table model
// ---------------------------------------------------------------------------

/// Model of one table entry: an endpoint, its scenario variants in
/// declaration order, and the scenario cursor.
#[verifier::ext_equal]
pub struct EntryModel {
    pub endpoint: EndpointModel,
    pub rules: Seq<RuleModel>,
    pub cursor: int,
}

impl EntryModel {
    /// Entry invariant: at least one variant, cursor within bounds.
    pub open spec fn wf(self) -> bool {
        self.rules.len() >= 1 && 0 <= self.cursor < self.rules.len()
    }
}

/// Table invariant: every entry well-formed, endpoints pairwise distinct.
pub open spec fn table_wf(t: Seq<EntryModel>) -> bool {
    (forall|i: int| 0 <= i < t.len() ==> (#[trigger] t[i]).wf()) && (forall|i: int, j: int|
        0 <= i < j < t.len() ==> (#[trigger] t[i]).endpoint != (#[trigger] t[j]).endpoint)
}

/// Every cursor sits at zero, as after construction.
pub open spec fn cursors_zero(t: Seq<EntryModel>) -> bool {
    forall|i: int| 0 <= i < t.len() ==> (#[trigger] t[i]).cursor == 0
}

/// The index of the entry with this endpoint, or -1 when there is none.
pub open spec fn entry_index(t: Seq<EntryModel>, ep: EndpointModel) -> int
    decreases t.len(),
{
    if t.len() == 0 {
        -1
    } else if t[0].endpoint == ep {
        0
    } else {
        let rest = entry_index(t.drop_first(), ep);
        if rest == -1 {
            -1
        } else {
            rest + 1
        }
    }
}

proof fn lemma_entry_index_found(t: Seq<EntryModel>, ep: EndpointModel, i: int)
    requires
        0 <= i < t.len(),
        t[i].endpoint == ep,
        forall|k: int| 0 <= k < i ==> (#[trigger] t[k]).endpoint != ep,
    ensures
        entry_index(t, ep) == i,
    decreases i,
{
    if i > 0 {
        lemma_entry_index_found(t.drop_first(), ep, i - 1);
    }
}

proof fn lemma_entry_index_none(t: Seq<EntryModel>, ep: EndpointModel)
    requires
        forall|k: int| 0 <= k < t.len() ==> (#[trigger] t[k]).endpoint != ep,
    ensures
        entry_index(t, ep) == -1,
    decreases t.len(),
{
    if t.len() > 0 {
        lemma_entry_index_none(t.drop_first(), ep);
    }
}

/// What the index function promises: a found index is the unique match; -1
/// means no entry matches.
pub proof fn lemma_entry_index_props(t: Seq<EntryModel>, ep: EndpointModel)
    ensures
        entry_index(t, ep) == -1 ==> forall|k: int|
            0 <= k < t.len() ==> (#[trigger] t[k]).endpoint != ep,
        entry_index(t, ep) != -1 ==> 0 <= entry_index(t, ep) < t.len() && t[entry_index(
            t,
            ep,
        )].endpoint == ep,
        entry_index(t, ep) != -1 ==> forall|k: int|
            0 <= k < entry_index(t, ep) ==> (#[trigger] t[k]).endpoint != ep,
    decreases t.len(),
{
    if t.len() > 0 {
        lemma_entry_index_props(t.drop_first(), ep);
        if t[0].endpoint != ep && entry_index(t.drop_first(), ep) == -1 {
            assert forall|k: int| 0 <= k < t.len() implies (#[trigger] t[k]).endpoint != ep by {
                if k > 0 {
                    assert(t.drop_first()[k - 1] == t[k]);
                }
            }
        }
        if t[0].endpoint != ep && entry_index(t.drop_first(), ep) != -1 {
            let i = entry_index(t, ep);
            assert forall|k: int| 0 <= k < i implies (#[trigger] t[k]).endpoint != ep by {
                if k > 0 {
                    assert(t.drop_first()[k - 1] == t[k]);
                }
            }
        }
    }
}

/// A found index stays found when entries keep their endpoints and the
/// table only grows at its end.
proof fn lemma_entry_index_preserved(t: Seq<EntryModel>, t2: Seq<EntryModel>, ep: EndpointModel)
    requires
        t.len() <= t2.len(),
        forall|k: int| 0 <= k < t.len() ==> (#[trigger] t2[k]).endpoint == t[k].endpoint,
        entry_index(t, ep) != -1,
    ensures
        entry_index(t2, ep) == entry_index(t, ep),
{
    lemma_entry_index_props(t, ep);
    let i = entry_index(t, ep);
    assert forall|k: int| 0 <= k < i implies (#[trigger] t2[k]).endpoint != ep by {
        assert(t2[k].endpoint == t[k].endpoint);
    }
    lemma_entry_index_found(t2, ep, i);
}

// ---------------------------------------------------------------------------
// Flattening a compiled system
// ---------------------------------------------------------------------------

/// All rules of an API set's scenarios, concatenated in declaration order.
pub open spec fn concat_rule_lists(lists: Seq<Seq<RuleModel>>) -> Seq<RuleModel>
    decreases lists.len(),
{
    if lists.len() == 0 {
        Seq::empty()
    } else {
        concat_rule_lists(lists.drop_last()) + lists.last()
    }
}

/// All rules of a sequence of API sets, concatenated in declaration order.
pub open spec fn sets_rules(sets: Seq<ApiSetModel>) -> Seq<RuleModel>
    decreases sets.len(),
{
    if sets.len() == 0 {
        Seq::empty()
    } else {
        sets_rules(sets.drop_last()) + concat_rule_lists(sets.last().apis)
    }
}

/// Every rule of a compiled system, in the flattening traversal order:
/// system, then API set, then API, then rule, each in declaration order.
pub open spec fn rules_of_system(s: SystemModel) -> Seq<RuleModel> {
    sets_rules(s.api_sets)
}

proof fn lemma_sets_rules_snoc(sets: Seq<ApiSetModel>, i: int)
    requires
        0 <= i < sets.len(),
    ensures
        sets_rules(sets.subrange(0, i + 1)) == sets_rules(sets.subrange(0, i)) + concat_rule_lists(
            sets[i].apis,
        ),
{
    assert(sets.subrange(0, i + 1).drop_last() =~= sets.subrange(0, i));
    assert(sets.subrange(0, i + 1).last() == sets[i]);
}

proof fn lemma_concat_snoc(lists: Seq<Seq<RuleModel>>, i: int)
    requires
        0 <= i < lists.len(),
    ensures
        concat_rule_lists(lists.subrange(0, i + 1)) == concat_rule_lists(lists.subrange(0, i))
            + lists[i],
{
    assert(lists.subrange(0, i + 1).drop_last() =~= lists.subrange(0, i));
    assert(lists.subrange(0, i + 1).last() == lists[i]);
}

/// Collects every rule of a compiled system in traversal order.
fn flatten_system(system: &SystemCore) -> (r: Vec<RuleCore>)
    ensures
        r.deep_view() == rules_of_system(system@),
{
    let ghost sets_model = system@.api_sets;
    let mut flat: Vec<RuleCore> = Vec::new();
    let mut si: usize = 0;
    proof {
        assert(flat.deep_view() =~= sets_rules(sets_model.subrange(0, 0)));
    }
    while si < system.api_sets.len()
        invariant
            si <= system.api_sets.len(),
            sets_model == system@.api_sets,
            flat.deep_view() == sets_rules(sets_model.subrange(0, si as int)),
        decreases system.api_sets.len() - si,
    {
        let ghost lists_model = sets_model[si as int].apis;
        let set = &system.api_sets[si];
        proof {
            assert(set@ == sets_model[si as int]);
        }
        let mut ai: usize = 0;
        proof {
            assert(lists_model.subrange(0, 0) =~= Seq::<Seq<RuleModel>>::empty());
            assert(flat.deep_view() =~= sets_rules(sets_model.subrange(0, si as int))
                + concat_rule_lists(lists_model.subrange(0, 0)));
        }
        while ai < set.apis.len()
            invariant
                ai <= set.apis.len(),
                si < system.api_sets.len(),
                sets_model == system@.api_sets,
                set@ == sets_model[si as int],
                lists_model == sets_model[si as int].apis,
                flat.deep_view() == sets_rules(sets_model.subrange(0, si as int))
                    + concat_rule_lists(lists_model.subrange(0, ai as int)),
            decreases set.apis.len() - ai,
        {
            let ghost rules_model = lists_model[ai as int];
            let api = &set.apis[ai];
            proof {
                assert(api@ == lists_model[ai as int]);
            }
            let mut ri: usize = 0;
            proof {
                assert(rules_model.subrange(0, 0) =~= Seq::<RuleModel>::empty());
                assert(flat.deep_view() =~= sets_rules(sets_model.subrange(0, si as int))
                    + concat_rule_lists(lists_model.subrange(0, ai as int)) + rules_model.subrange(
                    0,
                    0,
                ));
            }
            while ri < api.0.len()
                invariant
                    ri <= api.0.len(),
                    si < system.api_sets.len(),
                    ai < set.apis.len(),
                    sets_model == system@.api_sets,
                    set@ == sets_model[si as int],
                    lists_model == sets_model[si as int].apis,
                    api@ == lists_model[ai as int],
                    rules_model == lists_model[ai as int],
                    flat.deep_view() == sets_rules(sets_model.subrange(0, si as int))
                        + concat_rule_lists(lists_model.subrange(0, ai as int))
                        + rules_model.subrange(0, ri as int),
                decreases api.0.len() - ri,
            {
                let rule = api.0[ri].duplicate();
                let ghost rule_model = rule@;
                proof {
                    assert(rule_model == rules_model[ri as int]);
                }
                let ghost prev = flat.deep_view();
                flat.push(rule);
                proof {
                    assert(flat.deep_view() =~= prev.push(rule_model));
                    assert(rules_model.subrange(0, ri as int + 1) =~= rules_model.subrange(
                        0,
                        ri as int,
                    ).push(rule_model));
                    assert(flat.deep_view() =~= sets_rules(sets_model.subrange(0, si as int))
                        + concat_rule_lists(lists_model.subrange(0, ai as int))
                        + rules_model.subrange(0, ri as int + 1));
                }
                ri = ri + 1;
            }
            proof {
                assert(rules_model.subrange(0, rules_model.len() as int) =~= rules_model);
                lemma_concat_snoc(lists_model, ai as int);
                assert(flat.deep_view() =~= sets_rules(sets_model.subrange(0, si as int))
                    + concat_rule_lists(lists_model.subrange(0, ai as int + 1)));
            }
            ai = ai + 1;
        }
        proof {
            assert(lists_model.subrange(0, lists_model.len() as int) =~= lists_model);
            lemma_sets_rules_snoc(sets_model, si as int);
            assert(flat.deep_view() =~= sets_rules(sets_model.subrange(0, si as int + 1)));
        }
        si = si + 1;
    }
    proof {
        assert(sets_model.subrange(0, sets_model.len() as int) =~= sets_model);
    }
    flat
}

// ---------------------------------------------------------------------------
// Building the table
// ---------------------------------------------------------------------------

/// Inserting one rule: appended as a new variant of its endpoint's entry,
/// or opening a new entry with a fresh cursor. No deduplication: equal
/// rules for one endpoint stay distinct variants.
pub open spec fn insert_rule(t: Seq<EntryModel>, r: RuleModel) -> Seq<EntryModel> {
    let i = entry_index(t, r.endpoint);
    if i == -1 {
        t.push(EntryModel { endpoint: r.endpoint, rules: seq![r], cursor: 0 })
    } else {
        t.update(i, EntryModel { endpoint: t[i].endpoint, rules: t[i].rules.push(r), cursor: t[i].cursor })
    }
}

/// The dispatch table of a rule sequence: every rule inserted in order.
pub open spec fn table_of(rules: Seq<RuleModel>) -> Seq<EntryModel>
    decreases rules.len(),
{
    if rules.len() == 0 {
        Seq::empty()
    } else {
        insert_rule(table_of(rules.drop_last()), rules.last())
    }
}

proof fn lemma_insert_rule_wf(t: Seq<EntryModel>, r: RuleModel)
    requires
        table_wf(t),
        cursors_zero(t),
    ensures
        table_wf(insert_rule(t, r)),
        cursors_zero(insert_rule(t, r)),
{
    lemma_entry_index_props(t, r.endpoint);
}

/// A table built from any rule sequence is well-formed, with every cursor
/// at zero.
pub proof fn lemma_table_of_wf(rules: Seq<RuleModel>)
    ensures
        table_wf(table_of(rules)),
        cursors_zero(table_of(rules)),
    decreases rules.len(),
{
    if rules.len() > 0 {
        lemma_table_of_wf(rules.drop_last());
        lemma_insert_rule_wf(table_of(rules.drop_last()), rules.last());
    }
}

/// Declaring this endpoint, as a predicate value.
pub open spec fn endpoint_pred(ep: EndpointModel) -> spec_fn(RuleModel) -> bool {
    |r: RuleModel| r.endpoint == ep
}

/// The rules a sequence declares for one endpoint, in declaration order.
pub open spec fn rules_for(rules: Seq<RuleModel>, ep: EndpointModel) -> Seq<RuleModel> {
    rules.filter(endpoint_pred(ep))
}

proof fn lemma_rules_for_single(x: RuleModel, ep: EndpointModel)
    ensures
        rules_for(seq![x], ep) == if x.endpoint == ep {
            seq![x]
        } else {
            Seq::<RuleModel>::empty()
        },
{
    reveal(Seq::filter);
    assert(seq![x].drop_last() =~= Seq::<RuleModel>::empty());
    assert(Seq::<RuleModel>::empty().filter(endpoint_pred(ep)) =~= Seq::<RuleModel>::empty());
}

proof fn lemma_rules_for_snoc(rules: Seq<RuleModel>, ep: EndpointModel)
    requires
        rules.len() > 0,
    ensures
        rules_for(rules, ep) == rules_for(rules.drop_last(), ep) + (if rules.last().endpoint
            == ep {
            seq![rules.last()]
        } else {
            Seq::<RuleModel>::empty()
        }),
{
    assert(rules =~= rules.drop_last() + seq![rules.last()]);
    Seq::filter_distributes_over_add(rules.drop_last(), seq![rules.last()], endpoint_pred(ep));
    lemma_rules_for_single(rules.last(), ep);
}

proof fn lemma_rules_for_none(rules: Seq<RuleModel>, ep: EndpointModel)
    requires
        forall|j: int| 0 <= j < rules.len() ==> (#[trigger] rules[j]).endpoint != ep,
    ensures
        rules_for(rules, ep) == Seq::<RuleModel>::empty(),
    decreases rules.len(),
{
    if rules.len() > 0 {
        lemma_rules_for_snoc(rules, ep);
        lemma_rules_for_none(rules.drop_last(), ep);
        assert(rules_for(rules.drop_last(), ep) + Seq::<RuleModel>::empty() =~= Seq::<
            RuleModel,
        >::empty());
    } else {
        reveal(Seq::filter);
    }
}

/// Grouping law: each entry of a table holds exactly the rules declared for
/// its endpoint, in declaration order, and every declared rule's endpoint
/// has an entry.
pub proof fn lemma_table_of_groups(rules: Seq<RuleModel>)
    ensures
        forall|k: int|
            0 <= k < table_of(rules).len() ==> (#[trigger] table_of(rules)[k]).rules == rules_for(
                rules,
                table_of(rules)[k].endpoint,
            ),
        forall|j: int|
            0 <= j < rules.len() ==> entry_index(table_of(rules), (#[trigger] rules[j]).endpoint)
                != -1,
    decreases rules.len(),
{
    if rules.len() > 0 {
        let but = rules.drop_last();
        let r = rules.last();
        let t = table_of(but);
        let t2 = table_of(rules);
        lemma_table_of_groups(but);
        lemma_table_of_wf(but);
        lemma_entry_index_props(t, r.endpoint);
        let i = entry_index(t, r.endpoint);
        assert(t2 == insert_rule(t, r));
        if i == -1 {
            assert forall|j: int| 0 <= j < but.len() implies (#[trigger] but[j]).endpoint
                != r.endpoint by {
                if but[j].endpoint == r.endpoint {
                    assert(entry_index(t, but[j].endpoint) != -1);
                }
            }
            lemma_rules_for_none(but, r.endpoint);
            assert forall|k: int| 0 <= k < t2.len() implies (#[trigger] t2[k]).rules == rules_for(
                rules,
                t2[k].endpoint,
            ) by {
                lemma_rules_for_snoc(rules, t2[k].endpoint);
                if k < t.len() {
                    assert(t2[k] == t[k]);
                    assert(t[k].endpoint != r.endpoint);
                    assert(rules_for(but, t2[k].endpoint) + Seq::<RuleModel>::empty()
                        =~= rules_for(but, t2[k].endpoint));
                } else {
                    assert(t2[k].endpoint == r.endpoint);
                    assert(Seq::<RuleModel>::empty() + seq![r] =~= seq![r]);
                    assert(t2[k].rules == seq![r]);
                }
            }
            assert forall|j: int| 0 <= j < rules.len() implies entry_index(
                t2,
                (#[trigger] rules[j]).endpoint,
            ) != -1 by {
                if j < but.len() {
                    assert(but[j] == rules[j]);
                    lemma_entry_index_preserved(t, t2, rules[j].endpoint);
                } else {
                    assert(rules[j] == r);
                    assert(t2[t.len() as int].endpoint == r.endpoint);
                    lemma_entry_index_found(t2, r.endpoint, t.len() as int);
                }
            }
        } else {
            assert forall|k: int| 0 <= k < t.len() && k != i implies (#[trigger] t[k]).endpoint
                != r.endpoint by {
                assert(t[i].endpoint == r.endpoint);
            }
            assert forall|k: int| 0 <= k < t2.len() implies (#[trigger] t2[k]).rules == rules_for(
                rules,
                t2[k].endpoint,
            ) by {
                lemma_rules_for_snoc(rules, t2[k].endpoint);
                if k != i {
                    assert(t2[k] == t[k]);
                    assert(t[k].endpoint != r.endpoint);
                    assert(rules_for(but, t2[k].endpoint) + Seq::<RuleModel>::empty()
                        =~= rules_for(but, t2[k].endpoint));
                } else {
                    assert(t2[i].endpoint == r.endpoint);
                    assert(t2[i].rules == t[i].rules.push(r));
                    assert(rules_for(but, r.endpoint) + seq![r] =~= rules_for(
                        but,
                        r.endpoint,
                    ).push(r));
                }
            }
            assert forall|j: int| 0 <= j < rules.len() implies entry_index(
                t2,
                (#[trigger] rules[j]).endpoint,
            ) != -1 by {
                assert(forall|k: int|
                    0 <= k < t.len() ==> (#[trigger] t2[k]).endpoint == t[k].endpoint);
                if j < but.len() {
                    assert(but[j] == rules[j]);
                    lemma_entry_index_preserved(t, t2, rules[j].endpoint);
                } else {
                    assert(rules[j] == r);
                    lemma_entry_index_preserved(t, t2, r.endpoint);
                }
            }
        }
    }
}

// ---------------------------------------------------------------------------
// Exec table
// ---------------------------------------------------------------------------

/// One table entry: an endpoint, its scenario variants, and the cursor.
#[derive(Debug)]
pub struct TableEntry {
    pub endpoint: EndpointCore,
    pub rules: Vec<RuleCore>,
    pub cursor: usize,
}

impl View for TableEntry {
    type V = EntryModel;

    open spec fn view(&self) -> EntryModel {
        EntryModel {
            endpoint: self.endpoint@,
            rules: self.rules.deep_view(),
            cursor: self.cursor as int,
        }
    }
}

impl DeepView for TableEntry {
    type V = EntryModel;

    open spec fn deep_view(&self) -> EntryModel {
        self@
    }
}

/// A compiled system's dispatch table. Structure and rule contents are
/// fixed at construction; only the per-entry scenario cursors move, and
/// only through `dispatch`.
#[derive(Debug)]
pub struct DispatchTable {
    pub entries: Vec<TableEntry>,
}

impl View for DispatchTable {
    type V = Seq<EntryModel>;

    open spec fn view(&self) -> Seq<EntryModel> {
        self.entries.deep_view()
    }
}

/// Finds the entry whose endpoint is exactly (method, route).
fn find_entry(entries: &Vec<TableEntry>, method: &str, route: &str) -> (r: Option<usize>)
    ensures
        match r {
            Some(i) => i < entries.len() && entry_index(
                entries.deep_view(),
                EndpointModel { method: method@, route: route@ },
            ) == i,
            None => entry_index(
                entries.deep_view(),
                EndpointModel { method: method@, route: route@ },
            ) == -1,
        },
{
    let ghost ep = EndpointModel { method: method@, route: route@ };
    let mut i: usize = 0;
    while i < entries.len()
        invariant
            i <= entries.len(),
            ep == (EndpointModel { method: method@, route: route@ }),
            forall|k: int| 0 <= k < i ==> (#[trigger] entries.deep_view()[k]).endpoint != ep,
        decreases entries.len() - i,
    {
        let e = &entries[i];
        if str_eq(e.endpoint.method.as_str(), method) && str_eq(e.endpoint.route.as_str(), route) {
            proof {
                assert(entries.deep_view()[i as int].endpoint =~= ep);
                lemma_entry_index_found(entries.deep_view(), ep, i as int);
            }
            return Some(i);
        }
        i = i + 1;
    }
    proof {
        lemma_entry_index_none(entries.deep_view(), ep);
    }
    None
}

impl SystemCore {
    /// Builds this system's dispatch table: every rule of every API of
    /// every API set, flattened in declaration order and grouped by
    /// endpoint, each entry starting with its cursor at zero. Construction
    /// never fails; a system with no rules yields an empty table.
    pub fn generate_rules_map(&self) -> (t: DispatchTable)
        ensures
            t@ == table_of(rules_of_system(self@)),
            table_wf(t@),
            cursors_zero(t@),
            forall|k: int|
                0 <= k < t@.len() ==> (#[trigger] t@[k]).rules == rules_for(
                    rules_of_system(self@),
                    t@[k].endpoint,
                ),
            forall|j: int|
                0 <= j < rules_of_system(self@).len() ==> entry_index(
                    t@,
                    (#[trigger] rules_of_system(self@)[j]).endpoint,
                ) != -1,
    {
        proof {
            lemma_table_of_groups(rules_of_system(self@));
        }
        let flat = flatten_system(self);
        let ghost rules_model = flat.deep_view();
        let mut entries: Vec<TableEntry> = Vec::new();
        let mut k: usize = 0;
        proof {
            assert(rules_model.subrange(0, 0) =~= Seq::<RuleModel>::empty());
            assert(entries.deep_view() =~= table_of(rules_model.subrange(0, 0)));
            lemma_table_of_wf(rules_model.subrange(0, 0));
        }
        while k < flat.len()
            invariant
                k <= flat.len(),
                rules_model == flat.deep_view(),
                entries.deep_view() == table_of(rules_model.subrange(0, k as int)),
                table_wf(entries.deep_view()),
                cursors_zero(entries.deep_view()),
            decreases flat.len() - k,
        {
            let rule = flat[k].duplicate();
            let ghost rule_model = rule@;
            let ghost prev = entries.deep_view();
            proof {
                assert(rule_model == rules_model[k as int]);
                assert(rules_model.subrange(0, k as int + 1).drop_last() =~= rules_model.subrange(
                    0,
                    k as int,
                ));
                assert(rules_model.subrange(0, k as int + 1).last() == rule_model);
                lemma_insert_rule_wf(prev, rule_model);
            }
            match find_entry(&entries, rule.endpoint.method.as_str(), rule.endpoint.route.as_str())
             {
                Some(i) => {
                    let mut entry = entries.remove(i);
                    let ghost entry_prev = entry@;
                    entry.rules.push(rule);
                    proof {
                        assert(entry@.rules =~= entry_prev.rules.push(rule_model));
                        assert(entry@ =~= (EntryModel {
                            endpoint: entry_prev.endpoint,
                            rules: entry_prev.rules.push(rule_model),
                            cursor: entry_prev.cursor,
                        }));
                    }
                    let ghost entry_model = entry@;
                    entries.insert(i, entry);
                    proof {
                        assert(entries.deep_view() =~= prev.update(i as int, entry_model));
                        assert(entries.deep_view() =~= insert_rule(prev, rule_model));
                    }
                },
                None => {
                    let endpoint = rule.endpoint.duplicate();
                    let mut variants: Vec<RuleCore> = Vec::new();
                    variants.push(rule);
                    let entry = TableEntry { endpoint, rules: variants, cursor: 0 };
                    let ghost entry_model = entry@;
                    entries.push(entry);
                    proof {
                        assert(entry_model.rules =~= seq![rule_model]);
                        assert(entry_model =~= (EntryModel {
                            endpoint: rule_model.endpoint,
                            rules: seq![rule_model],
                            cursor: 0,
                        }));
                        assert(entries.deep_view() =~= prev.push(entry_model));
                        assert(entries.deep_view() =~= insert_rule(prev, rule_model));
                    }
                },
            }
            k = k + 1;
        }
        proof {
            assert(rules_model.subrange(0, rules_model.len() as int) =~= rules_model);
        }
        DispatchTable { entries }
    }
}

// ---------------------------------------------------------------------------
// Dispatching
// ---------------------------------------------------------------------------

/// One dispatch: the table after the call and the selected variant. A miss
/// leaves the table unchanged and selects nothing; a hit selects the
/// variant under the entry's cursor and advances that cursor by one,
/// wrapping at the variant count.
pub open spec fn dispatch_step(t: Seq<EntryModel>, method: Seq<char>, route: Seq<char>) -> (
    Seq<EntryModel>,
    Option<RuleModel>,
) {
    let i = entry_index(t, EndpointModel { method, route });
    if i == -1 {
        (t, None)
    } else {
        let e = t[i];
        let next = if e.cursor + 1 == e.rules.len() {
            0int
        } else {
            e.cursor + 1
        };
        (
            t.update(i, EntryModel { endpoint: e.endpoint, rules: e.rules, cursor: next }),
            Some(e.rules[e.cursor]),
        )
    }
}

impl DispatchTable {
    /// Resolves one request: looks (method, route) up by exact endpoint
    /// match, returns the scenario variant under the endpoint's cursor and
    /// advances the cursor round-robin; returns nothing, changing nothing,
    /// when no endpoint matches.
    pub fn dispatch(&mut self, method: &str, route: &str) -> (r: Option<RuleCore>)
        requires
            table_wf(old(self)@),
        ensures
            table_wf(final(self)@),
            final(self)@ == dispatch_step(old(self)@, method@, route@).0,
            match r {
                Some(rule) => dispatch_step(old(self)@, method@, route@).1 == Some(rule@),
                None => dispatch_step(old(self)@, method@, route@).1 is None,
            },
    {
        let ghost t0 = self@;
        match find_entry(&self.entries, method, route) {
            None => None,
            Some(i) => {
                let mut entry = self.entries.remove(i);
                let ghost entry_prev = entry@;
                proof {
                    assert(entry_prev == t0[i as int]);
                    assert(t0[i as int].wf());
                    assert(entry.rules.deep_view().len() == entry.rules@.len());
                    assert(entry.cursor < entry.rules@.len());
                }
                let rlen = entry.rules.len();
                let rule = entry.rules[entry.cursor].duplicate();
                let next = if entry.cursor + 1 == rlen {
                    0
                } else {
                    entry.cursor + 1
                };
                entry.cursor = next;
                let ghost entry_model = entry@;
                self.entries.insert(i, entry);
                proof {
                    assert(entry_model =~= (EntryModel {
                        endpoint: entry_prev.endpoint,
                        rules: entry_prev.rules,
                        cursor: if entry_prev.cursor + 1 == entry_prev.rules.len() {
                            0int
                        } else {
                            entry_prev.cursor + 1
                        },
                    }));
                    assert(self@ =~= t0.update(i as int, entry_model));
                    assert(self@ =~= dispatch_step(t0, method@, route@).0);
                    assert forall|k: int| 0 <= k < self@.len() implies (#[trigger] self@[k]).wf() by {
                        if k != i {
                            assert(self@[k] == t0[k]);
                        }
                    }
                    assert forall|a: int, b: int| 0 <= a < b < self@.len() implies (
                    #[trigger] self@[a]).endpoint != (#[trigger] self@[b]).endpoint by {
                        assert(self@[a].endpoint == t0[a].endpoint);
                        assert(self@[b].endpoint == t0[b].endpoint);
                    }
                }
                Some(rule)
            },
        }
    }
}

// ---------------------------------------------------------------------------
// Dispatch sequences and the selection laws
// ---------------------------------------------------------------------------

/// A table answers every request: one answer per request.
pub proof fn lemma_dispatch_answers_len(t: Seq<EntryModel>, reqs: Seq<(Seq<char>, Seq<char>)>)
    ensures
        dispatch_answers(t, reqs).len() == reqs.len(),
    decreases reqs.len(),
{
    if reqs.len() > 0 {
        lemma_dispatch_answers_len(dispatch_step(t, reqs[0].0, reqs[0].1).0, reqs.drop_first());
    }
}

/// The answers a table gives to a sequence of requests, each request
/// observing the cursor movement of those before it.
pub open spec fn dispatch_answers(
    t: Seq<EntryModel>,
    reqs: Seq<(Seq<char>, Seq<char>)>,
) -> Seq<Option<RuleModel>>
    decreases reqs.len(),
{
    if reqs.len() == 0 {
        Seq::empty()
    } else {
        let step = dispatch_step(t, reqs[0].0, reqs[0].1);
        seq![step.1] + dispatch_answers(step.0, reqs.drop_first())
    }
}

/// Dispatch is a function of the table model alone: two tables with equal
/// models — in particular two tables compiled and built from the same
/// configuration, both with every cursor at zero — answer every request
/// sequence identically.
pub proof fn lemma_dispatch_deterministic(
    t1: Seq<EntryModel>,
    t2: Seq<EntryModel>,
    reqs: Seq<(Seq<char>, Seq<char>)>,
)
    requires
        t1 == t2,
    ensures
        dispatch_answers(t1, reqs) == dispatch_answers(t2, reqs),
{
}

/// `n` requests to one endpoint, and nothing else.
pub open spec fn const_requests(method: Seq<char>, route: Seq<char>, n: int) -> Seq<
    (Seq<char>, Seq<char>),
> {
    Seq::new(n as nat, |k: int| (method, route))
}

proof fn lemma_round_robin_aux(t: Seq<EntryModel>, i: int, n: int)
    requires
        table_wf(t),
        0 <= i < t.len(),
        0 <= n,
    ensures
        forall|k: int|
            0 <= k < n ==> dispatch_answers(
                t,
                const_requests(t[i].endpoint.method, t[i].endpoint.route, n),
            )[k] == Some(t[i].rules[(t[i].cursor + k) % (t[i].rules.len() as int)]),
    decreases n,
{
    if n > 0 {
        let e = t[i];
        let len = e.rules.len() as int;
        let reqs = const_requests(e.endpoint.method, e.endpoint.route, n);
        assert(reqs[0] == (e.endpoint.method, e.endpoint.route));
        assert forall|k: int| 0 <= k < i implies (#[trigger] t[k]).endpoint != e.endpoint by {}
        lemma_entry_index_found(t, e.endpoint, i);
        let step = dispatch_step(t, e.endpoint.method, e.endpoint.route);
        let next = if e.cursor + 1 == len {
            0int
        } else {
            e.cursor + 1
        };
        let t2 = step.0;
        assert(t2[i].rules == e.rules && t2[i].cursor == next && t2[i].endpoint == e.endpoint);
        assert forall|k: int| 0 <= k < t2.len() implies (#[trigger] t2[k]).wf() by {
            if k != i {
                assert(t2[k] == t[k]);
            }
        }
        assert forall|a: int, b: int| 0 <= a < b < t2.len() implies (#[trigger] t2[a]).endpoint
            != (#[trigger] t2[b]).endpoint by {
            assert(t2[a].endpoint == t[a].endpoint);
            assert(t2[b].endpoint == t[b].endpoint);
        }
        lemma_round_robin_aux(t2, i, n - 1);
        let answers = dispatch_answers(t, reqs);
        let rest = dispatch_answers(t2, reqs.drop_first());
        lemma_dispatch_answers_len(t2, reqs.drop_first());
        assert(answers == seq![step.1] + dispatch_answers(step.0, reqs.drop_first()));
        assert(reqs.drop_first() =~= const_requests(e.endpoint.method, e.endpoint.route, n - 1));
        lemma_small_mod(e.cursor as nat, e.rules.len());
        assert(answers[0] == Some(e.rules[e.cursor]));
        assert((e.cursor + 0) % len == e.cursor);
        assert forall|k: int| 1 <= k < n implies answers[k] == Some(
            t[i].rules[(e.cursor + k) % len],
        ) by {
            assert(answers == seq![step.1] + rest);
            assert((seq![step.1] + rest)[k] == rest[k - 1]);
            assert(rest == dispatch_answers(
                t2,
                const_requests(e.endpoint.method, e.endpoint.route, n - 1),
            ));
            assert(dispatch_answers(
                t2,
                const_requests(e.endpoint.method, e.endpoint.route, n - 1),
            )[k - 1] == Some(t2[i].rules[(t2[i].cursor + (k - 1)) % (t2[i].rules.len() as int)]));
            assert(rest[k - 1] == Some(e.rules[(next + (k - 1)) % len]));
            if e.cursor + 1 == len {
                assert((len * 1 + (k - 1)) % len == (k - 1) % len) by {
                    lemma_mod_multiples_vanish(1, k - 1, len);
                }
                assert((e.cursor + k) % len == (k - 1) % len);
            } else {
                assert(next + (k - 1) == e.cursor + k);
            }
        }
    }
}

/// Round-robin law: for an endpoint whose cursor is fresh, the `k`-th of
/// `n` consecutive dispatches to that endpoint returns variant `k` modulo
/// the variant count. In particular, with `n` variants, `n` consecutive
/// dispatches return each variant exactly once in declaration order, and
/// the following dispatch returns the first variant again.
pub proof fn lemma_round_robin(t: Seq<EntryModel>, i: int, n: int)
    requires
        table_wf(t),
        0 <= i < t.len(),
        t[i].cursor == 0,
        0 <= n,
    ensures
        forall|k: int|
            0 <= k < n ==> dispatch_answers(
                t,
                const_requests(t[i].endpoint.method, t[i].endpoint.route, n),
            )[k] == Some(t[i].rules[k % (t[i].rules.len() as int)]),
{
    lemma_round_robin_aux(t, i, n);
}

} // verus!
