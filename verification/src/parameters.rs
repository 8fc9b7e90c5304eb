//! Parameter axes and their cartesian expansion: a named list of values per
//! axis, bindings of variables to values, and rendering of command templates
//! against a binding.

use vstd::prelude::*;
use crate::strutil::str_eq;
use crate::strutil::replace_all;
use crate::strutil::replace_all_spec;
use crate::strutil::lemma_replace_absent;
use crate::strutil::lex_leq;
use crate::strutil::lex_leq_fn;
use crate::strutil::lex_le;
use crate::strutil::lemma_lex_total;
use crate::strutil::lemma_lex_trans;
use crate::strutil::lemma_lex_total_ordering;
use crate::strutil::join_with;
use crate::strutil::join_strings;
use crate::strutil::views_of;
use vstd::relations::sorted_by;
use vstd::seq_lib::lemma_sorted_unique;
use vstd::seq_lib::lemma_multiset_commutative;
use crate::strutil::split_and_trim;
use crate::strutil::split_trimmed;

verus! {

/// One axis of the parameter space: a variable name and the ordered values
/// it ranges over.
#[derive(Debug)]
pub struct ParameterList {
    /// The variable name to use in command templates.
    pub var: String,
    /// The values to substitute for the variable.
    pub values: Vec<String>,
}

/// The keys of an association list of character sequences.
pub open spec fn keys_of(ps: Seq<(Seq<char>, Seq<char>)>) -> Seq<Seq<char>> {
    ps.map_values(|p: (Seq<char>, Seq<char>)| p.0)
}

/// The mapping an association list denotes; a later entry wins on a
/// repeated key.
pub open spec fn map_of(ps: Seq<(Seq<char>, Seq<char>)>) -> Map<Seq<char>, Seq<char>>
    decreases ps.len(),
{
    if ps.len() == 0 {
        Map::empty()
    } else {
        map_of(ps.drop_last()).insert(ps.last().0, ps.last().1)
    }
}

pub proof fn lemma_map_of_contains(ps: Seq<(Seq<char>, Seq<char>)>, k: Seq<char>)
    ensures
        map_of(ps).contains_key(k) <==> keys_of(ps).contains(k),
    decreases ps.len(),
{
    if ps.len() > 0 {
        let dl = ps.drop_last();
        lemma_map_of_contains(dl, k);
        assert(keys_of(dl) =~= keys_of(ps).drop_last());
        if map_of(ps).contains_key(k) {
            if k == ps.last().0 {
                assert(keys_of(ps)[ps.len() - 1] == k);
            } else {
                let i = choose|i: int| 0 <= i < keys_of(dl).len() && keys_of(dl)[i] == k;
                assert(keys_of(ps)[i] == k);
            }
        }
        if keys_of(ps).contains(k) {
            let i = choose|i: int| 0 <= i < keys_of(ps).len() && keys_of(ps)[i] == k;
            if i < ps.len() - 1 {
                assert(keys_of(dl)[i] == k);
            } else {
                assert(ps.last().0 == k);
            }
        }
    }
}

pub proof fn lemma_map_of_index(ps: Seq<(Seq<char>, Seq<char>)>, i: int)
    requires
        keys_of(ps).no_duplicates(),
        0 <= i < ps.len(),
    ensures
        map_of(ps).contains_key(ps[i].0),
        map_of(ps)[ps[i].0] == ps[i].1,
    decreases ps.len(),
{
    if i == ps.len() - 1 {
    } else {
        assert(keys_of(ps.drop_last()) =~= keys_of(ps).drop_last());
        lemma_map_of_index(ps.drop_last(), i);
        assert(keys_of(ps)[i] == ps[i].0);
        assert(keys_of(ps)[ps.len() - 1] == ps.last().0);
        assert(ps[i].0 != ps.last().0);
    }
}

pub proof fn lemma_map_of_len(ps: Seq<(Seq<char>, Seq<char>)>)
    requires
        keys_of(ps).no_duplicates(),
    ensures
        map_of(ps).dom().finite(),
        map_of(ps).dom().len() == ps.len(),
    decreases ps.len(),
{
    if ps.len() > 0 {
        let dl = ps.drop_last();
        assert(keys_of(dl) =~= keys_of(ps).drop_last());
        lemma_map_of_len(dl);
        lemma_map_of_contains(dl, ps.last().0);
        assert(!keys_of(dl).contains(ps.last().0)) by {
            if keys_of(dl).contains(ps.last().0) {
                let i = choose|i: int| 0 <= i < keys_of(dl).len() && keys_of(dl)[i] == ps.last().0;
                assert(keys_of(ps)[i] == ps.last().0);
                assert(keys_of(ps)[ps.len() - 1] == ps.last().0);
            }
        }
        assert(map_of(ps).dom() =~= map_of(dl).dom().insert(ps.last().0));
    }
}

/// Inserting a fresh pair at the end denotes insertion into the mapping.
pub proof fn lemma_map_of_push(ps: Seq<(Seq<char>, Seq<char>)>, k: Seq<char>, v: Seq<char>)
    ensures
        map_of(ps.push((k, v))) == map_of(ps).insert(k, v),
{
    assert(ps.push((k, v)).drop_last() =~= ps);
}

/// Updating the unique entry holding a key denotes insertion into the
/// mapping.
pub proof fn lemma_map_of_update(ps: Seq<(Seq<char>, Seq<char>)>, i: int, v: Seq<char>)
    requires
        keys_of(ps).no_duplicates(),
        0 <= i < ps.len(),
    ensures
        map_of(ps.update(i, (ps[i].0, v))) == map_of(ps).insert(ps[i].0, v),
    decreases ps.len(),
{
    let k = ps[i].0;
    let qs = ps.update(i, (k, v));
    if i == ps.len() - 1 {
        assert(qs.drop_last() =~= ps.drop_last());
        assert(qs.last() == (k, v));
        assert(map_of(qs) =~= map_of(ps).insert(k, v));
    } else {
        assert(keys_of(ps.drop_last()) =~= keys_of(ps).drop_last());
        lemma_map_of_update(ps.drop_last(), i, v);
        assert(qs.drop_last() =~= ps.drop_last().update(i, (k, v)));
        assert(qs.last() == ps.last());
        assert(keys_of(ps)[i] == k);
        assert(keys_of(ps)[ps.len() - 1] == ps.last().0);
        assert(k != ps.last().0);
        assert(map_of(qs) =~= map_of(ps).insert(k, v));
    }
}

/// A point of the parameter space: one value bound to each variable.
#[derive(Debug)]
pub struct ParamBinding {
    pairs: Vec<(String, String)>,
}

impl View for ParamBinding {
    type V = Map<Seq<char>, Seq<char>>;

    open spec fn view(&self) -> Map<Seq<char>, Seq<char>> {
        map_of(self.pairs_view())
    }
}

impl ParamBinding {
    /// The bound pairs in insertion order, as character sequences.
    pub closed spec fn pairs_view(&self) -> Seq<(Seq<char>, Seq<char>)> {
        self.pairs@.map_values(|p: (String, String)| (p.0@, p.1@))
    }

    /// Each variable is bound at most once.
    pub open spec fn wf(&self) -> bool {
        keys_of(self.pairs_view()).no_duplicates()
    }

    /// The empty binding.
    pub fn new() -> (r: ParamBinding)
        ensures
            r.wf(),
            r@ == Map::<Seq<char>, Seq<char>>::empty(),
            r.pairs_view() == Seq::<(Seq<char>, Seq<char>)>::empty(),
    {
        let r = ParamBinding { pairs: Vec::new() };
        proof {
            assert(r.pairs_view() =~= Seq::<(Seq<char>, Seq<char>)>::empty());
        }
        r
    }

    /// How many variables are bound.
    pub fn len(&self) -> (n: usize)
        requires
            self.wf(),
        ensures
            n == self@.dom().len(),
            n == self.pairs_view().len(),
    {
        proof {
            lemma_map_of_len(self.pairs_view());
        }
        self.pairs.len()
    }

    /// The position of the entry binding `key`, if any.
    fn index_of_key(&self, key: &str) -> (r: Option<usize>)
        ensures
            match r {
                Some(i) => i < self.pairs_view().len() && self.pairs_view()[i as int].0 == key@,
                None => forall|j: int|
                    0 <= j < self.pairs_view().len() ==> self.pairs_view()[j].0 != key@,
            },
    {
        let ghost ps = self.pairs_view();
        let n = self.pairs.len();
        let mut i: usize = 0;
        while i < n
            invariant
                n == ps.len(),
                ps == self.pairs_view(),
                i <= n,
                forall|j: int| 0 <= j < i ==> ps[j].0 != key@,
            decreases n - i,
        {
            if str_eq(self.pairs[i].0.as_str(), key) {
                return Some(i);
            }
            i = i + 1;
        }
        None
    }

    /// The value at one position of the binding.
    fn value_at(&self, i: usize) -> (r: &str)
        requires
            i < self.pairs_view().len(),
        ensures
            r@ == self.pairs_view()[i as int].1,
    {
        self.pairs[i].1.as_str()
    }

    /// The value bound to `key`, if any.
    pub fn get(&self, key: &str) -> (r: Option<&String>)
        requires
            self.wf(),
        ensures
            match r {
                Some(v) => self@.contains_key(key@) && v@ == self@[key@],
                None => !self@.contains_key(key@),
            },
    {
        let ghost ps = self.pairs_view();
        match self.index_of_key(key) {
            Some(i) => {
                proof {
                    lemma_map_of_index(ps, i as int);
                }
                Some(&self.pairs[i].1)
            },
            None => {
                proof {
                    lemma_map_of_contains(ps, key@);
                    if keys_of(ps).contains(key@) {
                        let j = choose|j: int|
                            0 <= j < keys_of(ps).len() && keys_of(ps)[j] == key@;
                        assert(ps[j].0 == key@);
                    }
                }
                None
            },
        }
    }

    /// Binds `key` to `value`, replacing any earlier binding of `key`.
    pub fn insert(&mut self, key: String, value: String)
        requires
            old(self).wf(),
        ensures
            final(self).wf(),
            final(self)@ == old(self)@.insert(key@, value@),
            !old(self)@.contains_key(key@) ==> final(self).pairs_view() == old(
                self,
            ).pairs_view().push((key@, value@)),
            old(self)@.contains_key(key@) ==> exists|i: int|
                0 <= i < old(self).pairs_view().len() && old(self).pairs_view()[i].0 == key@
                    && final(self).pairs_view() == old(self).pairs_view().update(
                    i,
                    (key@, value@),
                ),
    {
        let ghost ps = self.pairs_view();
        match self.index_of_key(key.as_str()) {
            Some(i) => {
                self.pairs.set(i, (key, value));
                proof {
                    assert(self.pairs_view() =~= ps.update(i as int, (key@, value@)));
                    lemma_map_of_index(ps, i as int);
                    lemma_map_of_update(ps, i as int, value@);
                    assert(keys_of(ps.update(i as int, (key@, value@))) =~= keys_of(ps));
                }
            },
            None => {
                self.pairs.push((key, value));
                proof {
                    assert(self.pairs_view() =~= ps.push((key@, value@)));
                    lemma_map_of_push(ps, key@, value@);
                    lemma_map_of_contains(ps, key@);
                    if keys_of(ps).contains(key@) {
                        let j = choose|j: int|
                            0 <= j < keys_of(ps).len() && keys_of(ps)[j] == key@;
                        assert(ps[j].0 == key@);
                    }
                    assert(keys_of(ps.push((key@, value@))) =~= keys_of(ps).push(key@));
                }
            },
        }
    }

    /// A copy with the same pairs in the same order.
    pub fn duplicate(&self) -> (r: ParamBinding)
        ensures
            r.pairs_view() == self.pairs_view(),
            r@ == self@,
            r.wf() == self.wf(),
    {
        let n = self.pairs.len();
        let mut pairs: Vec<(String, String)> = Vec::new();
        let mut i: usize = 0;
        while i < n
            invariant
                n == self.pairs@.len(),
                i <= n,
                pairs@.len() == i,
                forall|j: int| 0 <= j < i ==> (pairs@[j].0@, pairs@[j].1@) == (
                    self.pairs@[j].0@,
                    self.pairs@[j].1@,
                ),
            decreases n - i,
        {
            let k = self.pairs[i].0.clone();
            let v = self.pairs[i].1.clone();
            pairs.push((k, v));
            i = i + 1;
        }
        let r = ParamBinding { pairs };
        proof {
            assert(r.pairs_view() =~= self.pairs_view());
        }
        r
    }
}

/// The values of a parameter list as character sequences.
pub open spec fn values_view(vs: Seq<String>) -> Seq<Seq<char>> {
    vs.map_values(|v: String| v@)
}

/// The map views of a sequence of bindings.
pub open spec fn binding_views(bs: Seq<ParamBinding>) -> Seq<Map<Seq<char>, Seq<char>>> {
    bs.map_values(|b: ParamBinding| b@)
}

/// One binding extended with each value of an axis, in value order.
pub open spec fn insert_each(
    m: Map<Seq<char>, Seq<char>>,
    var: Seq<char>,
    values: Seq<Seq<char>>,
) -> Seq<Map<Seq<char>, Seq<char>>>
    decreases values.len(),
{
    if values.len() == 0 {
        Seq::empty()
    } else {
        seq![m.insert(var, values[0])] + insert_each(m, var, values.skip(1))
    }
}

pub proof fn lemma_insert_each_len(
    m: Map<Seq<char>, Seq<char>>,
    var: Seq<char>,
    values: Seq<Seq<char>>,
)
    ensures
        insert_each(m, var, values).len() == values.len(),
    decreases values.len(),
{
    if values.len() > 0 {
        lemma_insert_each_len(m, var, values.skip(1));
    }
}

pub proof fn lemma_insert_each_push(
    m: Map<Seq<char>, Seq<char>>,
    var: Seq<char>,
    values: Seq<Seq<char>>,
    v: Seq<char>,
)
    ensures
        insert_each(m, var, values.push(v)) == insert_each(m, var, values).push(m.insert(var, v)),
    decreases values.len(),
{
    if values.len() == 0 {
        assert(values.push(v)[0] == v);
        assert(values.push(v).skip(1) =~= Seq::<Seq<char>>::empty());
        let x = m.insert(var, v);
        assert(insert_each(m, var, Seq::<Seq<char>>::empty()) == Seq::<
            Map<Seq<char>, Seq<char>>,
        >::empty());
        assert(insert_each(m, var, values.push(v)) == seq![x] + Seq::<
            Map<Seq<char>, Seq<char>>,
        >::empty());
        assert(seq![x] + Seq::<Map<Seq<char>, Seq<char>>>::empty() =~= Seq::<
            Map<Seq<char>, Seq<char>>,
        >::empty().push(x));
        assert(insert_each(m, var, values) == Seq::<Map<Seq<char>, Seq<char>>>::empty());
    } else {
        assert(values.push(v)[0] == values[0]);
        assert(values.push(v).skip(1) =~= values.skip(1).push(v));
        lemma_insert_each_push(m, var, values.skip(1), v);
        let a = m.insert(var, values[0]);
        let b = insert_each(m, var, values.skip(1));
        let x = m.insert(var, v);
        assert(insert_each(m, var, values.push(v)) == seq![a] + b.push(x));
        assert(seq![a] + b.push(x) =~= (seq![a] + b).push(x));
        assert(insert_each(m, var, values) == seq![a] + b);
    }
}

/// One expansion step: each accumulated binding extended with each value of
/// the axis, accumulated bindings outermost so the new axis varies fastest.
pub open spec fn cross_bindings(
    acc: Seq<Map<Seq<char>, Seq<char>>>,
    var: Seq<char>,
    values: Seq<Seq<char>>,
) -> Seq<Map<Seq<char>, Seq<char>>>
    decreases acc.len(),
{
    if acc.len() == 0 {
        Seq::empty()
    } else {
        insert_each(acc[0], var, values) + cross_bindings(acc.skip(1), var, values)
    }
}

/// The accumulated bindings crossed with each axis in declaration order.
pub open spec fn expand_from(
    acc: Seq<Map<Seq<char>, Seq<char>>>,
    lists: Seq<ParameterList>,
) -> Seq<Map<Seq<char>, Seq<char>>>
    decreases lists.len(),
{
    if lists.len() == 0 {
        acc
    } else {
        expand_from(
            cross_bindings(acc, lists[0].var@, values_view(lists[0].values@)),
            lists.skip(1),
        )
    }
}

/// The full expansion of the parameter axes, starting from the single empty
/// binding.
pub open spec fn expand_spec(lists: Seq<ParameterList>) -> Seq<Map<Seq<char>, Seq<char>>> {
    expand_from(seq![Map::<Seq<char>, Seq<char>>::empty()], lists)
}

/// The product of the value-list sizes.
pub open spec fn size_product(lists: Seq<ParameterList>) -> nat
    decreases lists.len(),
{
    if lists.len() == 0 {
        1
    } else {
        lists[0].values@.len() * size_product(lists.skip(1))
    }
}

pub proof fn lemma_cross_len(
    acc: Seq<Map<Seq<char>, Seq<char>>>,
    var: Seq<char>,
    values: Seq<Seq<char>>,
)
    ensures
        cross_bindings(acc, var, values).len() == acc.len() * values.len(),
    decreases acc.len(),
{
    if acc.len() > 0 {
        lemma_insert_each_len(acc[0], var, values);
        lemma_cross_len(acc.skip(1), var, values);
        assert(values.len() + (acc.len() - 1) * values.len() == acc.len() * values.len())
            by (nonlinear_arith);
    }
}

pub proof fn lemma_cross_push(
    acc: Seq<Map<Seq<char>, Seq<char>>>,
    m: Map<Seq<char>, Seq<char>>,
    var: Seq<char>,
    values: Seq<Seq<char>>,
)
    ensures
        cross_bindings(acc.push(m), var, values) == cross_bindings(acc, var, values) + insert_each(
            m,
            var,
            values,
        ),
    decreases acc.len(),
{
    let e = insert_each(m, var, values);
    if acc.len() == 0 {
        assert(acc.push(m)[0] == m);
        assert(acc.push(m).skip(1) =~= Seq::<Map<Seq<char>, Seq<char>>>::empty());
        assert(cross_bindings(Seq::<Map<Seq<char>, Seq<char>>>::empty(), var, values) == Seq::<
            Map<Seq<char>, Seq<char>>,
        >::empty());
        assert(cross_bindings(acc.push(m), var, values) == e + Seq::<
            Map<Seq<char>, Seq<char>>,
        >::empty());
        assert(cross_bindings(acc, var, values) == Seq::<Map<Seq<char>, Seq<char>>>::empty());
        assert(e + Seq::<Map<Seq<char>, Seq<char>>>::empty() =~= Seq::<
            Map<Seq<char>, Seq<char>>,
        >::empty() + e);
    } else {
        assert(acc.push(m).skip(1) =~= acc.skip(1).push(m));
        lemma_cross_push(acc.skip(1), m, var, values);
        assert(acc.push(m)[0] == acc[0]);
        let h = insert_each(acc[0], var, values);
        let t = cross_bindings(acc.skip(1), var, values);
        assert(cross_bindings(acc.push(m), var, values) == h + (t + e));
        assert(h + (t + e) =~= (h + t) + e);
        assert(cross_bindings(acc, var, values) == h + t);
    }
}

pub proof fn lemma_expand_from_push(
    acc: Seq<Map<Seq<char>, Seq<char>>>,
    lists: Seq<ParameterList>,
    l: ParameterList,
)
    ensures
        expand_from(acc, lists.push(l)) == cross_bindings(
            expand_from(acc, lists),
            l.var@,
            values_view(l.values@),
        ),
    decreases lists.len(),
{
    if lists.len() == 0 {
        assert(lists.push(l)[0] == l);
        assert(lists.push(l).skip(1) =~= Seq::<ParameterList>::empty());
        let crossed = cross_bindings(acc, l.var@, values_view(l.values@));
        assert(expand_from(acc, lists.push(l)) == expand_from(
            crossed,
            Seq::<ParameterList>::empty(),
        ));
        assert(expand_from(crossed, Seq::<ParameterList>::empty()) == crossed);
    } else {
        assert(lists.push(l)[0] == lists[0]);
        assert(lists.push(l).skip(1) =~= lists.skip(1).push(l));
        let crossed = cross_bindings(acc, lists[0].var@, values_view(lists[0].values@));
        lemma_expand_from_push(crossed, lists.skip(1), l);
        assert(expand_from(acc, lists.push(l)) == expand_from(crossed, lists.skip(1).push(l)));
        assert(expand_from(acc, lists) == expand_from(crossed, lists.skip(1)));
    }
}

pub proof fn lemma_expand_from_len(acc: Seq<Map<Seq<char>, Seq<char>>>, lists: Seq<ParameterList>)
    ensures
        expand_from(acc, lists).len() == acc.len() * size_product(lists),
    decreases lists.len(),
{
    if lists.len() == 0 {
        assert(acc.len() * 1 == acc.len()) by (nonlinear_arith);
    } else {
        let crossed = cross_bindings(acc, lists[0].var@, values_view(lists[0].values@));
        lemma_cross_len(acc, lists[0].var@, values_view(lists[0].values@));
        lemma_expand_from_len(crossed, lists.skip(1));
        assert((acc.len() * lists[0].values@.len()) * size_product(lists.skip(1)) == acc.len() * (
        lists[0].values@.len() * size_product(lists.skip(1)))) by (nonlinear_arith);
    }
}

/// Expanding parameter axes of sizes s1..sn yields exactly s1 * .. * sn
/// bindings; with no axes it yields exactly the one empty binding.
pub proof fn lemma_expand_count(lists: Seq<ParameterList>)
    ensures
        expand_spec(lists).len() == size_product(lists),
        expand_spec(Seq::<ParameterList>::empty()) == seq![Map::<Seq<char>, Seq<char>>::empty()],
{
    let init = seq![Map::<Seq<char>, Seq<char>>::empty()];
    lemma_expand_from_len(init, lists);
    assert(init.len() == 1);
    assert(1 * size_product(lists) == size_product(lists)) by (nonlinear_arith);
}

/// All bindings expanded from a list of parameter axes, in declaration
/// order with the last axis varying fastest.
#[derive(Debug)]
pub struct ParameterMatrix {
    /// The list of parameter combinations.
    pub combinations: Vec<ParamBinding>,
}

impl ParameterMatrix {
    /// Every combination binds each variable at most once.
    pub open spec fn wf(&self) -> bool {
        forall|i: int| 0 <= i < self.combinations@.len() ==> (#[trigger] self.combinations@[i]).wf()
    }

    /// Expands the axes into the cartesian product of their values.
    pub fn new(parameter_lists: &[ParameterList]) -> (r: ParameterMatrix)
        ensures
            r.wf(),
            binding_views(r.combinations@) == expand_spec(parameter_lists@),
    {
        let ghost lv = parameter_lists@;
        let mut combinations: Vec<ParamBinding> = Vec::new();
        combinations.push(ParamBinding::new());
        proof {
            assert(binding_views(combinations@) =~= seq![Map::<Seq<char>, Seq<char>>::empty()]);
            assert(lv.subrange(0, 0) =~= Seq::<ParameterList>::empty());
        }
        let mut li: usize = 0;
        while li < parameter_lists.len()
            invariant
                lv == parameter_lists@,
                li <= lv.len(),
                binding_views(combinations@) == expand_spec(lv.subrange(0, li as int)),
                forall|i: int|
                    0 <= i < combinations@.len() ==> (#[trigger] combinations@[i]).wf(),
            decreases lv.len() - li,
        {
            let param_list = &parameter_lists[li];
            let ghost var = param_list.var@;
            let ghost vals = values_view(param_list.values@);
            let ghost acc = binding_views(combinations@);
            let mut new_combinations: Vec<ParamBinding> = Vec::new();
            proof {
                assert(acc.subrange(0, 0) =~= Seq::<Map<Seq<char>, Seq<char>>>::empty());
                assert(binding_views(new_combinations@) =~= Seq::<
                    Map<Seq<char>, Seq<char>>,
                >::empty());
            }
            let mut ci: usize = 0;
            while ci < combinations.len()
                invariant
                    acc == binding_views(combinations@),
                    var == param_list.var@,
                    vals == values_view(param_list.values@),
                    ci <= combinations@.len(),
                    acc.len() == combinations@.len(),
                    forall|i: int|
                        0 <= i < combinations@.len() ==> (#[trigger] combinations@[i]).wf(),
                    binding_views(new_combinations@) == cross_bindings(
                        acc.subrange(0, ci as int),
                        var,
                        vals,
                    ),
                    forall|i: int|
                        0 <= i < new_combinations@.len() ==> (
                        #[trigger] new_combinations@[i]).wf(),
                decreases combinations@.len() - ci,
            {
                let ghost base = acc[ci as int];
                let ghost before_mid = binding_views(new_combinations@);
                let mut vi: usize = 0;
                proof {
                    assert(vals.subrange(0, 0) =~= Seq::<Seq<char>>::empty());
                    assert(before_mid + insert_each(base, var, vals.subrange(0, 0))
                        =~= before_mid);
                }
                while vi < param_list.values.len()
                    invariant
                        acc == binding_views(combinations@),
                        var == param_list.var@,
                        vals == values_view(param_list.values@),
                        ci < combinations@.len(),
                        acc.len() == combinations@.len(),
                        base == acc[ci as int],
                        combinations@[ci as int].wf(),
                        vals.len() == param_list.values@.len(),
                        vi <= vals.len(),
                        forall|i: int|
                            0 <= i < combinations@.len() ==> (#[trigger] combinations@[i]).wf(),
                        binding_views(new_combinations@) == before_mid + insert_each(
                            base,
                            var,
                            vals.subrange(0, vi as int),
                        ),
                        forall|i: int|
                            0 <= i < new_combinations@.len() ==> (
                            #[trigger] new_combinations@[i]).wf(),
                    decreases vals.len() - vi,
                {
                    let mut nb = combinations[ci].duplicate();
                    nb.insert(param_list.var.clone(), param_list.values[vi].clone());
                    proof {
                        assert(nb@ == base.insert(var, vals[vi as int]));
                    }
                    new_combinations.push(nb);
                    proof {
                        let bb = insert_each(base, var, vals.subrange(0, vi as int));
                        assert(vals.subrange(0, vi + 1) =~= vals.subrange(0, vi as int).push(
                            vals[vi as int],
                        ));
                        lemma_insert_each_push(base, var, vals.subrange(0, vi as int),
                            vals[vi as int]);
                        assert(binding_views(new_combinations@) =~= (before_mid + bb).push(nb@));
                        assert((before_mid + bb).push(nb@) =~= before_mid + bb.push(nb@));
                    }
                    vi = vi + 1;
                }
                proof {
                    assert(vals.subrange(0, vals.len() as int) =~= vals);
                    assert(acc.subrange(0, ci + 1) =~= acc.subrange(0, ci as int).push(
                        acc[ci as int],
                    ));
                    lemma_cross_push(acc.subrange(0, ci as int), acc[ci as int], var, vals);
                    assert(binding_views(new_combinations@) =~= cross_bindings(
                        acc.subrange(0, ci + 1),
                        var,
                        vals,
                    ));
                }
                ci = ci + 1;
            }
            combinations = new_combinations;
            proof {
                assert(acc.subrange(0, acc.len() as int) =~= acc);
                assert(lv.subrange(0, li + 1) =~= lv.subrange(0, li as int).push(lv[li as int]));
                lemma_expand_from_push(
                    seq![Map::<Seq<char>, Seq<char>>::empty()],
                    lv.subrange(0, li as int),
                    lv[li as int],
                );
            }
            li = li + 1;
        }
        proof {
            assert(lv.subrange(0, lv.len() as int) =~= lv);
        }
        ParameterMatrix { combinations }
    }

    /// A command template with every `{variable}` placeholder of the binding
    /// substituted, in the binding's insertion order; unmatched placeholders
    /// stay verbatim.
    pub fn apply_parameters(&self, command_template: &str, params: &ParamBinding) -> (r: String)
        ensures
            r@ == render_pairs(command_template@, params.pairs_view()),
    {
        let ghost ps = params.pairs_view();
        let mut command = command_template.to_owned();
        let n = params.pairs.len();
        let mut i: usize = 0;
        proof {
            assert(ps.skip(0) =~= ps);
        }
        while i < n
            invariant
                n == ps.len(),
                ps == params.pairs_view(),
                i <= n,
                render_pairs(command_template@, ps) == render_pairs(
                    command@,
                    ps.skip(i as int),
                ),
            decreases n - i,
        {
            let ph = make_placeholder(params.pairs[i].0.as_str());
            proof {
                assert(ph@.len() > 0);
                assert(ps.skip(i as int)[0] == ps[i as int]);
                assert(ps.skip(i as int).skip(1) =~= ps.skip(i + 1));
            }
            command = replace_all(command.as_str(), ph.as_str(), params.value_at(i));
            i = i + 1;
        }
        proof {
            assert(ps.skip(n as int) =~= Seq::<(Seq<char>, Seq<char>)>::empty());
        }
        command
    }

    /// One rendered command per combination, each paired with its binding;
    /// a matrix without combinations yields the bare template once.
    pub fn generate_commands(&self, command_template: &str) -> (r: Vec<(String, ParamBinding)>)
        ensures
            self.combinations@.len() == 0 ==> r@.len() == 1 && r@[0].0@ == command_template@
                && r@[0].1.pairs_view() == Seq::<(Seq<char>, Seq<char>)>::empty(),
            self.combinations@.len() > 0 ==> r@.len() == self.combinations@.len() && forall|i: int|
                0 <= i < r@.len() ==> (#[trigger] r@[i]).0@ == render_pairs(
                    command_template@,
                    self.combinations@[i].pairs_view(),
                ) && r@[i].1.pairs_view() == self.combinations@[i].pairs_view(),
    {
        let mut commands: Vec<(String, ParamBinding)> = Vec::new();
        if self.combinations.len() == 0 {
            commands.push((command_template.to_owned(), ParamBinding::new()));
            return commands;
        }
        let n = self.combinations.len();
        let mut ci: usize = 0;
        while ci < n
            invariant
                n == self.combinations@.len(),
                ci <= n,
                commands@.len() == ci,
                forall|i: int|
                    0 <= i < ci ==> (#[trigger] commands@[i]).0@ == render_pairs(
                        command_template@,
                        self.combinations@[i].pairs_view(),
                    ) && commands@[i].1.pairs_view() == self.combinations@[i].pairs_view(),
            decreases n - ci,
        {
            let command = self.apply_parameters(command_template, &self.combinations[ci]);
            let params = self.combinations[ci].duplicate();
            commands.push((command, params));
            ci = ci + 1;
        }
        commands
    }
}

/// The `{variable}` placeholder for a variable name.
pub open spec fn placeholder_of(var: Seq<char>) -> Seq<char> {
    seq!['{'] + var + seq!['}']
}

/// A template with each bound pair substituted in order: every occurrence
/// of `{variable}` becomes the bound value.
pub open spec fn render_pairs(t: Seq<char>, pairs: Seq<(Seq<char>, Seq<char>)>) -> Seq<char>
    decreases pairs.len(),
{
    if pairs.len() == 0 {
        t
    } else {
        render_pairs(replace_all_spec(t, placeholder_of(pairs[0].0), pairs[0].1), pairs.skip(1))
    }
}

/// Rendering a template that holds no opening brace leaves it unchanged,
/// whatever is bound.
pub proof fn lemma_render_no_brace(t: Seq<char>, pairs: Seq<(Seq<char>, Seq<char>)>)
    requires
        !t.contains('{'),
    ensures
        render_pairs(t, pairs) == t,
    decreases pairs.len(),
{
    if pairs.len() > 0 {
        let ph = placeholder_of(pairs[0].0);
        assert(ph[0] == '{');
        lemma_replace_absent(t, ph, pairs[0].1);
        lemma_render_no_brace(t, pairs.skip(1));
    }
}

/// Rendering is idempotent whenever the first rendering leaves no opening
/// brace: substituted values that introduce no new placeholder cannot be
/// substituted again.
pub proof fn lemma_render_idempotent(t: Seq<char>, pairs: Seq<(Seq<char>, Seq<char>)>)
    requires
        !render_pairs(t, pairs).contains('{'),
    ensures
        render_pairs(render_pairs(t, pairs), pairs) == render_pairs(t, pairs),
{
    lemma_render_no_brace(render_pairs(t, pairs), pairs);
}

/// The `key-value` text of one bound pair.
pub open spec fn entry_string(p: (Seq<char>, Seq<char>)) -> Seq<char> {
    p.0 + seq!['-'] + p.1
}

/// The `key-value` texts of the pairs not keyed `commit`, in pair order.
pub open spec fn entries_of(ps: Seq<(Seq<char>, Seq<char>)>) -> Seq<Seq<char>>
    decreases ps.len(),
{
    if ps.len() == 0 {
        Seq::empty()
    } else {
        let rest = entries_of(ps.drop_last());
        if ps.last().0 == "commit"@ {
            rest
        } else {
            rest.push(entry_string(ps.last()))
        }
    }
}

/// The results-directory discriminator of a binding: the `key-value` texts
/// of its pairs other than `commit`, sorted, joined with `_`; `default`
/// when none remain.
pub open spec fn dirname_spec(ps: Seq<(Seq<char>, Seq<char>)>) -> Seq<char> {
    let entries = entries_of(ps);
    if entries.len() == 0 {
        "default"@
    } else {
        join_with(entries.sort_by(lex_leq_fn()), seq!['_'])
    }
}

pub proof fn lemma_entries_add(a: Seq<(Seq<char>, Seq<char>)>, b: Seq<(Seq<char>, Seq<char>)>)
    ensures
        entries_of(a + b) == entries_of(a) + entries_of(b),
    decreases b.len(),
{
    if b.len() == 0 {
        assert(a + b =~= a);
        assert(entries_of(b) == Seq::<Seq<char>>::empty());
        assert(entries_of(a) + Seq::<Seq<char>>::empty() =~= entries_of(a));
    } else {
        assert((a + b).drop_last() =~= a + b.drop_last());
        assert((a + b).len() > 0);
        assert((a + b).last() == b.last());
        lemma_entries_add(a, b.drop_last());
        if b.last().0 == "commit"@ {
        } else {
            assert((entries_of(a) + entries_of(b.drop_last())).push(entry_string(b.last()))
                =~= entries_of(a) + entries_of(b.drop_last()).push(entry_string(b.last())));
        }
    }
}

/// Moving one pair to the end of the list keeps the same multiset of
/// entry texts.
pub proof fn lemma_entries_move_to_end(ps: Seq<(Seq<char>, Seq<char>)>, j: int)
    requires
        0 <= j < ps.len(),
    ensures
        entries_of(ps.remove(j).push(ps[j])).to_multiset() == entries_of(ps).to_multiset(),
{
    broadcast use vstd::multiset::group_multiset_axioms;

    let u = ps.subrange(0, j);
    let x = seq![ps[j]];
    let w = ps.subrange(j + 1, ps.len() as int);
    assert(ps =~= (u + x) + w);
    assert(ps.remove(j).push(ps[j]) =~= (u + w) + x);
    lemma_entries_add(u + x, w);
    lemma_entries_add(u, x);
    lemma_entries_add(u + w, x);
    lemma_entries_add(u, w);
    let eu = entries_of(u);
    let ex = entries_of(x);
    let ew = entries_of(w);
    assert(entries_of(ps) == (eu + ex) + ew);
    assert(entries_of(ps.remove(j).push(ps[j])) == (eu + ew) + ex);
    assert(((eu + ex) + ew).to_multiset() =~= ((eu + ew) + ex).to_multiset()) by {
        lemma_multiset_commutative(eu + ex, ew);
        lemma_multiset_commutative(eu, ex);
        lemma_multiset_commutative(eu + ew, ex);
        lemma_multiset_commutative(eu, ew);
    }
}

/// Lists of pairs that are reorderings of each other yield the same
/// multiset of entry texts.
pub proof fn lemma_entries_multiset(
    pa: Seq<(Seq<char>, Seq<char>)>,
    pb: Seq<(Seq<char>, Seq<char>)>,
)
    requires
        pa.to_multiset() == pb.to_multiset(),
    ensures
        entries_of(pa).to_multiset() == entries_of(pb).to_multiset(),
    decreases pa.len(),
{
    broadcast use vstd::multiset::group_multiset_axioms;
    broadcast use vstd::seq_lib::group_to_multiset_ensures;

    if pa.len() == 0 {
        assert(pb.to_multiset().len() == 0);
        assert(pb.len() == 0);
    } else {
        let x = pa.last();
        let dl = pa.drop_last();
        assert(pa =~= dl.push(x));
        assert(pa.to_multiset() == dl.to_multiset().insert(x));
        assert(pa.to_multiset().count(x) > 0);
        assert(pb.to_multiset().count(x) > 0);
        assert(pb.contains(x));
        let j = choose|j: int| 0 <= j < pb.len() && pb[j] == x;
        let pbr = pb.remove(j);
        assert(pbr.to_multiset() == pb.to_multiset().remove(x));
        assert(dl.to_multiset() =~= pbr.to_multiset());
        lemma_entries_multiset(dl, pbr);
        lemma_entries_move_to_end(pb, j);
        assert(entries_of(pbr.push(x)).to_multiset() == entries_of(pb).to_multiset());
        assert(pbr.push(x).drop_last() =~= pbr);
        assert(dl.push(x).drop_last() =~= dl);
        if x.0 == "commit"@ {
            assert(entries_of(pa) == entries_of(dl));
            assert(entries_of(pbr.push(x)) == entries_of(pbr));
        } else {
            assert(entries_of(pa) == entries_of(dl).push(entry_string(x)));
            assert(entries_of(pbr.push(x)) == entries_of(pbr).push(entry_string(x)));
            assert(entries_of(pa).to_multiset() == entries_of(dl).to_multiset().insert(
                entry_string(x),
            ));
            assert(entries_of(pbr.push(x)).to_multiset() == entries_of(
                pbr,
            ).to_multiset().insert(entry_string(x)));
        }
    }
}

/// The directory name of a binding ignores the order in which its pairs
/// stand: any reordering of the pairs yields the same name.
pub proof fn lemma_dirname_reorder(
    pa: Seq<(Seq<char>, Seq<char>)>,
    pb: Seq<(Seq<char>, Seq<char>)>,
)
    requires
        pa.to_multiset() == pb.to_multiset(),
    ensures
        dirname_spec(pa) == dirname_spec(pb),
{
    broadcast use vstd::seq_lib::group_to_multiset_ensures;

    lemma_entries_multiset(pa, pb);
    let ea = entries_of(pa);
    let eb = entries_of(pb);
    assert(ea.to_multiset().len() == ea.len());
    assert(eb.to_multiset().len() == eb.len());
    if ea.len() == 0 {
        assert(eb.len() == 0);
    } else {
        lemma_lex_total_ordering();
        ea.lemma_sort_by_ensures(lex_leq_fn());
        eb.lemma_sort_by_ensures(lex_leq_fn());
        lemma_sorted_unique(ea.sort_by(lex_leq_fn()), eb.sort_by(lex_leq_fn()), lex_leq_fn());
    }
}

/// The position in a sorted list at which a string can be inserted while
/// keeping it sorted.
fn insert_pos(v: &Vec<String>, x: &str) -> (pos: usize)
    ensures
        pos <= v@.len(),
        forall|k: int| 0 <= k < pos ==> lex_leq(views_of(v@)[k], x@),
        pos < v@.len() ==> !lex_leq(views_of(v@)[pos as int], x@),
{
    let n = v.len();
    let mut i: usize = 0;
    while i < n
        invariant
            n == v@.len(),
            i <= n,
            forall|k: int| 0 <= k < i ==> lex_leq(views_of(v@)[k], x@),
        decreases n - i,
    {
        if !lex_le(v[i].as_str(), x) {
            return i;
        }
        i = i + 1;
    }
    n
}

/// Sorts the strings into lexicographic order, keeping the same multiset
/// of strings.
fn sort_strings(v: &mut Vec<String>)
    ensures
        sorted_by(views_of(final(v)@), lex_leq_fn()),
        views_of(final(v)@).to_multiset() == views_of(old(v)@).to_multiset(),
{
    broadcast use vstd::seq_lib::group_to_multiset_ensures;

    let ghost orig = views_of(v@);
    let mut out: Vec<String> = Vec::new();
    let n = v.len();
    let mut i: usize = 0;
    proof {
        assert(views_of(out@) =~= Seq::<Seq<char>>::empty());
        assert(orig.subrange(0, 0) =~= Seq::<Seq<char>>::empty());
        assert(Seq::<Seq<char>>::empty().to_multiset() =~= Seq::<
            Seq<char>,
        >::empty().to_multiset());
    }
    while i < n
        invariant
            n == v@.len(),
            orig == views_of(v@),
            i <= n,
            sorted_by(views_of(out@), lex_leq_fn()),
            views_of(out@).to_multiset() == orig.subrange(0, i as int).to_multiset(),
        decreases n - i,
    {
        let x = v[i].clone();
        let pos = insert_pos(&out, x.as_str());
        let ghost before = views_of(out@);
        out.insert(pos, x);
        proof {
            let after = views_of(out@);
            assert(after =~= before.insert(pos as int, x@));
            vstd::seq_lib::to_multiset_insert(before, pos as int, x@);
            assert(orig.subrange(0, i + 1) =~= orig.subrange(0, i as int).push(orig[i as int]));
            assert(x@ == orig[i as int]);
            vstd::seq_lib::to_multiset_build(orig.subrange(0, i as int), orig[i as int]);
            let f = lex_leq_fn();
            assert forall|a: int, b: int| 0 <= a < b < after.len() implies #[trigger] f(
                after[a],
                after[b],
            ) by {
                if b < pos {
                    assert(f(before[a], before[b]));
                } else if a < pos && b == pos {
                    assert(lex_leq(before[a], x@));
                } else if a < pos && b > pos {
                    assert(f(before[a], before[b - 1]));
                } else if a == pos {
                    if pos < before.len() {
                        assert(!lex_leq(before[pos as int], x@));
                        lemma_lex_total(before[pos as int], x@);
                        if b - 1 > pos {
                            assert(f(before[pos as int], before[b - 1]));
                            lemma_lex_trans(x@, before[pos as int], before[b - 1]);
                        }
                    }
                } else {
                    assert(f(before[a - 1], before[b - 1]));
                }
            }
        }
        i = i + 1;
    }
    proof {
        assert(orig.subrange(0, n as int) =~= orig);
    }
    *v = out;
}

/// Utilities for working with parameter combinations.
#[derive(Debug)]
pub struct ParameterUtils;

impl ParameterUtils {
    /// The results-directory name of a binding: its `key-value` pairs other
    /// than `commit`, sorted and joined with `_`; `default` if none remain.
    pub fn params_to_dirname(params: &ParamBinding) -> (r: String)
        ensures
            r@ == dirname_spec(params.pairs_view()),
    {
        broadcast use vstd::seq_lib::group_to_multiset_ensures;

        let ghost ps = params.pairs_view();
        let mut entries: Vec<String> = Vec::new();
        let n = params.pairs.len();
        let mut i: usize = 0;
        proof {
            assert(views_of(entries@) =~= Seq::<Seq<char>>::empty());
            assert(ps.subrange(0, 0) =~= Seq::<(Seq<char>, Seq<char>)>::empty());
        }
        while i < n
            invariant
                n == ps.len(),
                ps == params.pairs_view(),
                i <= n,
                views_of(entries@) == entries_of(ps.subrange(0, i as int)),
            decreases n - i,
        {
            let ghost before = views_of(entries@);
            if !str_eq(params.pairs[i].0.as_str(), "commit") {
                let mut e = params.pairs[i].0.clone();
                e.append("-");
                e.append(params.pairs[i].1.as_str());
                proof {
                    reveal_strlit("-");
                    assert(e@ =~= entry_string(ps[i as int]));
                }
                entries.push(e);
                proof {
                    assert(views_of(entries@) =~= before.push(entry_string(ps[i as int])));
                }
            }
            proof {
                assert(ps.subrange(0, i + 1) =~= ps.subrange(0, i as int).push(ps[i as int]));
                assert(ps.subrange(0, i as int).push(ps[i as int]).drop_last() =~= ps.subrange(
                    0,
                    i as int,
                ));
                assert(ps[i as int].0 == "commit"@ ==> views_of(entries@) == entries_of(
                    ps.subrange(0, i + 1),
                ));
                assert(ps[i as int].0 != "commit"@ ==> views_of(entries@) == entries_of(
                    ps.subrange(0, i + 1),
                ));
            }
            i = i + 1;
        }
        proof {
            assert(ps.subrange(0, n as int) =~= ps);
        }
        if entries.len() == 0 {
            return "default".to_owned();
        }
        sort_strings(&mut entries);
        let r = join_strings(&entries, "_");
        proof {
            reveal_strlit("_");
            assert("_"@ =~= seq!['_']);
            lemma_lex_total_ordering();
            entries_of(ps).lemma_sort_by_ensures(lex_leq_fn());
            lemma_sorted_unique(
                views_of(entries@),
                entries_of(ps).sort_by(lex_leq_fn()),
                lex_leq_fn(),
            );
        }
        r
    }
}

/// The `values` field of one declared parameter list, reduced to the shapes
/// the declaration grammar distinguishes.
#[derive(Debug)]
pub enum RawValues {
    /// An array; each element is its string content, or nothing for a
    /// non-string element.
    Items(Vec<Option<String>>),
    /// A single string of comma-separated values.
    Joined(String),
    /// Missing, or of another shape.
    Absent,
}

/// One entry of a parameter-list declaration: the `var` field when it is a
/// string, and whatever stands under `values`.
#[derive(Debug)]
pub struct RawParamEntry {
    /// The string under `var`, if the entry has one.
    pub var: Option<String>,
    /// The declared values.
    pub values: RawValues,
}

/// The text of one declared array element: the string itself, or empty for
/// a non-string element.
pub open spec fn opt_text(o: Option<String>) -> Seq<char> {
    match o {
        Some(s) => s@,
        None => Seq::empty(),
    }
}

/// The texts of the declared array elements, in order.
pub open spec fn item_texts(items: Seq<Option<String>>) -> Seq<Seq<char>>
    decreases items.len(),
{
    if items.len() == 0 {
        Seq::empty()
    } else {
        item_texts(items.drop_last()).push(opt_text(items.last()))
    }
}

/// The value strings an entry declares: array elements verbatim with
/// non-strings as empty, or a comma-separated string split and trimmed,
/// or nothing.
pub open spec fn raw_values_spec(v: RawValues) -> Seq<Seq<char>> {
    match v {
        RawValues::Items(items) => item_texts(items@),
        RawValues::Joined(s) => split_trimmed(s@),
        RawValues::Absent => Seq::empty(),
    }
}

/// The parameter lists a declaration denotes: one per entry with a string
/// `var`, in order, with that entry's declared values.
pub open spec fn param_lists_spec(entries: Seq<RawParamEntry>) -> Seq<(Seq<char>, Seq<Seq<char>>)>
    decreases entries.len(),
{
    if entries.len() == 0 {
        Seq::empty()
    } else {
        let rest = param_lists_spec(entries.drop_last());
        match entries.last().var {
            Some(v) => rest.push((v@, raw_values_spec(entries.last().values))),
            None => rest,
        }
    }
}

/// The view of a built parameter list: its variable and value texts.
pub open spec fn plist_view(l: ParameterList) -> (Seq<char>, Seq<Seq<char>>) {
    (l.var@, values_view(l.values@))
}

impl ParameterUtils {
    /// Builds the parameter lists a declaration denotes: entries without a
    /// string `var` are skipped; array values are taken verbatim with
    /// non-string elements as empty; a string value is split on commas and
    /// trimmed.
    pub fn create_parameter_lists(entries: &Vec<RawParamEntry>) -> (r: Vec<ParameterList>)
        ensures
            r@.map_values(|l: ParameterList| plist_view(l)) == param_lists_spec(entries@),
    {
        let mut lists: Vec<ParameterList> = Vec::new();
        let n = entries.len();
        let mut i: usize = 0;
        proof {
            assert(entries@.subrange(0, 0) =~= Seq::<RawParamEntry>::empty());
            assert(lists@.map_values(|l: ParameterList| plist_view(l)) =~= Seq::<
                (Seq<char>, Seq<Seq<char>>),
            >::empty());
        }
        while i < n
            invariant
                n == entries@.len(),
                i <= n,
                lists@.map_values(|l: ParameterList| plist_view(l)) == param_lists_spec(
                    entries@.subrange(0, i as int),
                ),
            decreases n - i,
        {
            let ghost before = lists@.map_values(|l: ParameterList| plist_view(l));
            match &entries[i].var {
                Some(var) => {
                    let values = Self::collect_values(&entries[i].values);
                    let list = ParameterList { var: var.clone(), values };
                    lists.push(list);
                    proof {
                        assert(lists@.map_values(|l: ParameterList| plist_view(l))
                            =~= before.push((var@, raw_values_spec(entries@[i as int].values))));
                    }
                },
                None => {},
            }
            proof {
                assert(entries@.subrange(0, i + 1) =~= entries@.subrange(0, i as int).push(
                    entries@[i as int],
                ));
                assert(entries@.subrange(0, i as int).push(entries@[i as int]).drop_last()
                    =~= entries@.subrange(0, i as int));
            }
            i = i + 1;
        }
        proof {
            assert(entries@.subrange(0, n as int) =~= entries@);
        }
        lists
    }

    /// The value strings one entry declares.
    fn collect_values(values: &RawValues) -> (r: Vec<String>)
        ensures
            values_view(r@) == raw_values_spec(*values),
    {
        match values {
            RawValues::Items(items) => {
                let mut out: Vec<String> = Vec::new();
                let n = items.len();
                let mut i: usize = 0;
                proof {
                    assert(items@.subrange(0, 0) =~= Seq::<Option<String>>::empty());
                    assert(values_view(out@) =~= Seq::<Seq<char>>::empty());
                }
                while i < n
                    invariant
                        n == items@.len(),
                        i <= n,
                        raw_values_spec(*values) == item_texts(items@),
                        values_view(out@) == item_texts(items@.subrange(0, i as int)),
                    decreases n - i,
                {
                    let ghost before = values_view(out@);
                    let s: String = match &items[i] {
                        Some(s) => s.clone(),
                        None => String::new(),
                    };
                    out.push(s);
                    proof {
                        assert(values_view(out@) =~= before.push(opt_text(items@[i as int])));
                        assert(items@.subrange(0, i + 1) =~= items@.subrange(0, i as int).push(
                            items@[i as int],
                        ));
                        assert(items@.subrange(0, i as int).push(items@[i as int]).drop_last()
                            =~= items@.subrange(0, i as int));
                    }
                    i = i + 1;
                }
                proof {
                    assert(items@.subrange(0, n as int) =~= items@);
                }
                out
            },
            RawValues::Joined(s) => {
                let out = split_and_trim(s.as_str());
                proof {
                    assert(values_view(out@) =~= crate::strutil::views_of(out@));
                }
                out
            },
            RawValues::Absent => {
                let out: Vec<String> = Vec::new();
                proof {
                    assert(values_view(out@) =~= Seq::<Seq<char>>::empty());
                }
                out
            },
        }
    }
}

fn make_placeholder(var: &str) -> (r: String)
    ensures
        r@ == placeholder_of(var@),
{
    let mut r = "{".to_owned();
    r.append(var);
    r.append("}");
    proof {
        reveal_strlit("{");
        reveal_strlit("}");
        assert(r@ =~= placeholder_of(var@));
    }
    r
}

} // verus!
