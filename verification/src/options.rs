//! Benchmark-tool options: a closed tagged value type, a map from option
//! names to values with a later-wins merge, default-hook injection, the
//! implicit `commit` parameter list, and command-template rewriting.

use vstd::prelude::*;
use crate::strutil::str_eq;
use crate::strutil::replace_all;
use crate::strutil::replace_all_spec;
use crate::parameters::RawParamEntry;
use crate::parameters::RawValues;

verus! {

/// The shape of one declared parameter-list value in specifications.
pub enum RawValuesView {
    Items(Seq<Option<Seq<char>>>),
    Joined(Seq<char>),
    Absent,
}

impl View for RawValues {
    type V = RawValuesView;

    open spec fn view(&self) -> RawValuesView {
        match self {
            RawValues::Items(items) => RawValuesView::Items(
                items@.map_values(
                    |o: Option<String>|
                        match o {
                            Some(s) => Some(s@),
                            None => None,
                        },
                ),
            ),
            RawValues::Joined(s) => RawValuesView::Joined(s@),
            RawValues::Absent => RawValuesView::Absent,
        }
    }
}

/// The shape of one parameter-list declaration entry in specifications.
pub struct RawEntryView {
    pub var: Option<Seq<char>>,
    pub values: RawValuesView,
}

impl View for RawParamEntry {
    type V = RawEntryView;

    open spec fn view(&self) -> RawEntryView {
        RawEntryView {
            var: match self.var {
                Some(v) => Some(v@),
                None => None,
            },
            values: self.values@,
        }
    }
}

/// One element of a list-shaped option value: a string, a parameter-list
/// declaration table, or anything else.
#[derive(Debug)]
pub enum RawItem {
    /// A string element.
    Text(String),
    /// A table element declaring one parameter list.
    Entry(RawParamEntry),
    /// An element of any other shape.
    Other,
}

/// A list element in specifications.
pub enum RawItemView {
    Text(Seq<char>),
    Entry(RawEntryView),
    Other,
}

impl View for RawItem {
    type V = RawItemView;

    open spec fn view(&self) -> RawItemView {
        match self {
            RawItem::Text(s) => RawItemView::Text(s@),
            RawItem::Entry(e) => RawItemView::Entry(e@),
            RawItem::Other => RawItemView::Other,
        }
    }
}

/// A benchmark-tool option value: the closed set of shapes the option
/// grammar distinguishes.
#[derive(Debug)]
pub enum OptionValue {
    /// A string value, rendered as `--key value`.
    Text(String),
    /// A numeric value, rendered as `--key <number>`.
    Num(i64),
    /// A boolean: `true` renders as the bare flag `--key`, `false` is
    /// omitted.
    Flag(bool),
    /// A list value; how it renders depends on the option name.
    ListVal(Vec<RawItem>),
}

/// An option value in specifications.
pub enum OptionValueView {
    Text(Seq<char>),
    Num(int),
    Flag(bool),
    ListVal(Seq<RawItemView>),
}

impl View for OptionValue {
    type V = OptionValueView;

    open spec fn view(&self) -> OptionValueView {
        match self {
            OptionValue::Text(s) => OptionValueView::Text(s@),
            OptionValue::Num(n) => OptionValueView::Num(*n as int),
            OptionValue::Flag(b) => OptionValueView::Flag(*b),
            OptionValue::ListVal(ls) => OptionValueView::ListVal(
                ls@.map_values(|l: RawItem| l@),
            ),
        }
    }
}

/// The keys of an association list.
pub open spec fn okeys(ps: Seq<(Seq<char>, OptionValueView)>) -> Seq<Seq<char>> {
    ps.map_values(|p: (Seq<char>, OptionValueView)| p.0)
}

/// The mapping an association list denotes; a later entry wins on a
/// repeated key.
pub open spec fn omap_of(ps: Seq<(Seq<char>, OptionValueView)>) -> Map<Seq<char>, OptionValueView>
    decreases ps.len(),
{
    if ps.len() == 0 {
        Map::empty()
    } else {
        omap_of(ps.drop_last()).insert(ps.last().0, ps.last().1)
    }
}

/// The position of the entry holding a key, or a negative value when no
/// entry holds it.
pub open spec fn okey_index(ps: Seq<(Seq<char>, OptionValueView)>, k: Seq<char>) -> int
    decreases ps.len(),
{
    if ps.len() == 0 {
        -1
    } else if ps[0].0 == k {
        0
    } else {
        let r = okey_index(ps.skip(1), k);
        if r < 0 {
            -1
        } else {
            1 + r
        }
    }
}

/// An association list with `k` bound to `v`: the entry holding `k` is
/// replaced in place, or a new entry is appended.
pub open spec fn oinsert(
    ps: Seq<(Seq<char>, OptionValueView)>,
    k: Seq<char>,
    v: OptionValueView,
) -> Seq<(Seq<char>, OptionValueView)> {
    let i = okey_index(ps, k);
    if i < 0 {
        ps.push((k, v))
    } else {
        ps.update(i, (k, v))
    }
}

/// Every entry of `adds` inserted into `ps`, in order.
pub open spec fn oinsert_all(
    ps: Seq<(Seq<char>, OptionValueView)>,
    adds: Seq<(Seq<char>, OptionValueView)>,
) -> Seq<(Seq<char>, OptionValueView)>
    decreases adds.len(),
{
    if adds.len() == 0 {
        ps
    } else {
        oinsert_all(oinsert(ps, adds[0].0, adds[0].1), adds.skip(1))
    }
}

/// Every entry of `adds` whose key is absent from `ps` appended to `ps`,
/// in order; present keys keep their value.
pub open spec fn oinsert_missing(
    ps: Seq<(Seq<char>, OptionValueView)>,
    adds: Seq<(Seq<char>, OptionValueView)>,
) -> Seq<(Seq<char>, OptionValueView)>
    decreases adds.len(),
{
    if adds.len() == 0 {
        ps
    } else {
        let next = if okey_index(ps, adds[0].0) < 0 {
            ps.push(adds[0])
        } else {
            ps
        };
        oinsert_missing(next, adds.skip(1))
    }
}

pub proof fn lemma_okey_index_spec(ps: Seq<(Seq<char>, OptionValueView)>, k: Seq<char>)
    ensures
        okey_index(ps, k) >= 0 ==> okey_index(ps, k) < ps.len() && ps[okey_index(ps, k)].0 == k
            && forall|j: int| 0 <= j < okey_index(ps, k) ==> ps[j].0 != k,
        okey_index(ps, k) < 0 ==> forall|j: int| 0 <= j < ps.len() ==> ps[j].0 != k,
    decreases ps.len(),
{
    if ps.len() > 0 && ps[0].0 != k {
        lemma_okey_index_spec(ps.skip(1), k);
        let r = okey_index(ps.skip(1), k);
        if r >= 0 {
            assert(ps.skip(1)[r] == ps[r + 1]);
            assert forall|j: int| 0 <= j < okey_index(ps, k) implies ps[j].0 != k by {
                if j > 0 {
                    assert(ps.skip(1)[j - 1] == ps[j]);
                }
            }
        } else {
            assert forall|j: int| 0 <= j < ps.len() implies ps[j].0 != k by {
                if j > 0 {
                    assert(ps.skip(1)[j - 1] == ps[j]);
                }
            }
        }
    }
}

pub proof fn lemma_omap_contains(ps: Seq<(Seq<char>, OptionValueView)>, k: Seq<char>)
    ensures
        omap_of(ps).contains_key(k) <==> okeys(ps).contains(k),
    decreases ps.len(),
{
    if ps.len() > 0 {
        let dl = ps.drop_last();
        lemma_omap_contains(dl, k);
        assert(okeys(dl) =~= okeys(ps).drop_last());
        if omap_of(ps).contains_key(k) {
            if k == ps.last().0 {
                assert(okeys(ps)[ps.len() - 1] == k);
            } else {
                let i = choose|i: int| 0 <= i < okeys(dl).len() && okeys(dl)[i] == k;
                assert(okeys(ps)[i] == k);
            }
        }
        if okeys(ps).contains(k) {
            let i = choose|i: int| 0 <= i < okeys(ps).len() && okeys(ps)[i] == k;
            if i < ps.len() - 1 {
                assert(okeys(dl)[i] == k);
            } else {
                assert(ps.last().0 == k);
            }
        }
    }
}

pub proof fn lemma_omap_index(ps: Seq<(Seq<char>, OptionValueView)>, i: int)
    requires
        okeys(ps).no_duplicates(),
        0 <= i < ps.len(),
    ensures
        omap_of(ps).contains_key(ps[i].0),
        omap_of(ps)[ps[i].0] == ps[i].1,
    decreases ps.len(),
{
    if i == ps.len() - 1 {
    } else {
        assert(okeys(ps.drop_last()) =~= okeys(ps).drop_last());
        lemma_omap_index(ps.drop_last(), i);
        assert(okeys(ps)[i] == ps[i].0);
        assert(okeys(ps)[ps.len() - 1] == ps.last().0);
        assert(ps[i].0 != ps.last().0);
    }
}

pub proof fn lemma_omap_push(ps: Seq<(Seq<char>, OptionValueView)>, k: Seq<char>, v: OptionValueView)
    ensures
        omap_of(ps.push((k, v))) == omap_of(ps).insert(k, v),
{
    assert(ps.push((k, v)).drop_last() =~= ps);
}

pub proof fn lemma_omap_update(ps: Seq<(Seq<char>, OptionValueView)>, i: int, v: OptionValueView)
    requires
        okeys(ps).no_duplicates(),
        0 <= i < ps.len(),
    ensures
        omap_of(ps.update(i, (ps[i].0, v))) == omap_of(ps).insert(ps[i].0, v),
    decreases ps.len(),
{
    let k = ps[i].0;
    let qs = ps.update(i, (k, v));
    if i == ps.len() - 1 {
        assert(qs.drop_last() =~= ps.drop_last());
        assert(qs.last() == (k, v));
        assert(omap_of(qs) =~= omap_of(ps).insert(k, v));
    } else {
        assert(okeys(ps.drop_last()) =~= okeys(ps).drop_last());
        lemma_omap_update(ps.drop_last(), i, v);
        assert(qs.drop_last() =~= ps.drop_last().update(i, (k, v)));
        assert(qs.last() == ps.last());
        assert(okeys(ps)[i] == k);
        assert(okeys(ps)[ps.len() - 1] == ps.last().0);
        assert(k != ps.last().0);
        assert(omap_of(qs) =~= omap_of(ps).insert(k, v));
    }
}

/// Insertion denotes insertion into the mapping and keeps keys unique.
pub proof fn lemma_oinsert(ps: Seq<(Seq<char>, OptionValueView)>, k: Seq<char>, v: OptionValueView)
    requires
        okeys(ps).no_duplicates(),
    ensures
        okeys(oinsert(ps, k, v)).no_duplicates(),
        omap_of(oinsert(ps, k, v)) == omap_of(ps).insert(k, v),
        oinsert(ps, k, v).len() == if okeys(ps).contains(k) {
            ps.len() as int
        } else {
            ps.len() as int + 1
        },
{
    lemma_okey_index_spec(ps, k);
    let i = okey_index(ps, k);
    if i < 0 {
        lemma_omap_push(ps, k, v);
        assert(okeys(ps.push((k, v))) =~= okeys(ps).push(k));
        assert(!okeys(ps).contains(k)) by {
            if okeys(ps).contains(k) {
                let j = choose|j: int| 0 <= j < okeys(ps).len() && okeys(ps)[j] == k;
                assert(ps[j].0 == k);
            }
        }
    } else {
        lemma_omap_update(ps, i, v);
        assert(okeys(ps.update(i, (k, v))) =~= okeys(ps));
        assert(okeys(ps)[i] == k);
    }
}

/// A map from option names to values; a name occurs at most once, and a
/// later insertion of a name replaces its value.
#[derive(Debug)]
pub struct OptionMap {
    entries: Vec<(String, OptionValue)>,
}

impl View for OptionMap {
    type V = Map<Seq<char>, OptionValueView>;

    open spec fn view(&self) -> Map<Seq<char>, OptionValueView> {
        omap_of(self.entries_view())
    }
}

impl OptionMap {
    /// The entries in insertion order.
    pub closed spec fn entries_view(&self) -> Seq<(Seq<char>, OptionValueView)> {
        self.entries@.map_values(|p: (String, OptionValue)| (p.0@, p.1@))
    }

    /// Each option name is bound at most once.
    pub open spec fn wf(&self) -> bool {
        okeys(self.entries_view()).no_duplicates()
    }

    /// The empty option map.
    pub fn new() -> (r: OptionMap)
        ensures
            r.wf(),
            r@ == Map::<Seq<char>, OptionValueView>::empty(),
            r.entries_view() == Seq::<(Seq<char>, OptionValueView)>::empty(),
    {
        let r = OptionMap { entries: Vec::new() };
        proof {
            assert(r.entries_view() =~= Seq::<(Seq<char>, OptionValueView)>::empty());
        }
        r
    }

    /// How many options are set.
    pub fn entry_count(&self) -> (n: usize)
        ensures
            n == self.entries_view().len(),
    {
        self.entries.len()
    }

    /// The option name at one position.
    pub fn key_at(&self, i: usize) -> (r: &String)
        requires
            i < self.entries_view().len(),
        ensures
            r@ == self.entries_view()[i as int].0,
    {
        &self.entries[i].0
    }

    /// The option value at one position.
    pub fn value_at(&self, i: usize) -> (r: &OptionValue)
        requires
            i < self.entries_view().len(),
        ensures
            r@ == self.entries_view()[i as int].1,
    {
        &self.entries[i].1
    }

    /// The position of the entry binding `key`, if any.
    fn index_of_key(&self, key: &str) -> (r: Option<usize>)
        ensures
            match r {
                Some(i) => i < self.entries_view().len() && self.entries_view()[i as int].0
                    == key@ && forall|j: int| 0 <= j < i ==> self.entries_view()[j].0 != key@,
                None => forall|j: int|
                    0 <= j < self.entries_view().len() ==> self.entries_view()[j].0 != key@,
            },
    {
        let ghost ps = self.entries_view();
        let n = self.entries.len();
        let mut i: usize = 0;
        while i < n
            invariant
                n == ps.len(),
                ps == self.entries_view(),
                i <= n,
                forall|j: int| 0 <= j < i ==> ps[j].0 != key@,
            decreases n - i,
        {
            if str_eq(self.entries[i].0.as_str(), key) {
                return Some(i);
            }
            i = i + 1;
        }
        None
    }

    /// The value bound to `key`, if any.
    pub fn get(&self, key: &str) -> (r: Option<&OptionValue>)
        requires
            self.wf(),
        ensures
            match r {
                Some(v) => self@.contains_key(key@) && v@ == self@[key@],
                None => !self@.contains_key(key@),
            },
    {
        let ghost ps = self.entries_view();
        match self.index_of_key(key) {
            Some(i) => {
                proof {
                    lemma_omap_index(ps, i as int);
                }
                Some(&self.entries[i].1)
            },
            None => {
                proof {
                    lemma_omap_contains(ps, key@);
                    if okeys(ps).contains(key@) {
                        let j = choose|j: int| 0 <= j < okeys(ps).len() && okeys(ps)[j] == key@;
                        assert(ps[j].0 == key@);
                    }
                }
                None
            },
        }
    }

    /// Binds `key` to `value`, replacing any earlier binding of `key`.
    pub fn insert(&mut self, key: String, value: OptionValue)
        requires
            old(self).wf(),
        ensures
            final(self).wf(),
            final(self).entries_view() == oinsert(old(self).entries_view(), key@, value@),
            final(self)@ == old(self)@.insert(key@, value@),
    {
        let ghost ps = self.entries_view();
        proof {
            lemma_oinsert(ps, key@, value@);
            lemma_okey_index_spec(ps, key@);
        }
        match self.index_of_key(key.as_str()) {
            Some(i) => {
                proof {
                    assert(okey_index(ps, key@) == i as int) by {
                        let r = okey_index(ps, key@);
                        if r < 0 {
                            assert(ps[i as int].0 != key@);
                        } else {
                            if r < i as int {
                                assert(ps[r].0 != key@);
                            }
                            if (i as int) < r {
                                assert(ps[i as int].0 != key@);
                            }
                        }
                    }
                }
                self.entries.set(i, (key, value));
                proof {
                    assert(self.entries_view() =~= ps.update(i as int, (key@, value@)));
                }
            },
            None => {
                proof {
                    assert(okey_index(ps, key@) < 0) by {
                        let r = okey_index(ps, key@);
                        if r >= 0 {
                            assert(ps[r].0 == key@);
                        }
                    }
                }
                self.entries.push((key, value));
                proof {
                    assert(self.entries_view() =~= ps.push((key@, value@)));
                }
            },
        }
    }
}

impl RawValues {
    /// A copy with the same shape and texts.
    pub fn duplicate(&self) -> (r: RawValues)
        ensures
            r@ == self@,
    {
        match self {
            RawValues::Items(items) => {
                let n = items.len();
                let mut out: Vec<Option<String>> = Vec::new();
                let mut i: usize = 0;
                while i < n
                    invariant
                        n == items@.len(),
                        i <= n,
                        out@.len() == i,
                        forall|j: int| 0 <= j < i ==> ((#[trigger] out@[j]) matches Some(s)
                            ==> items@[j] matches Some(t) && s@ == t@),
                        forall|j: int| 0 <= j < i ==> (out@[j] is Some <==> items@[j] is Some),
                    decreases n - i,
                {
                    let o: Option<String> = match &items[i] {
                        Some(s) => Some(s.clone()),
                        None => None,
                    };
                    out.push(o);
                    i = i + 1;
                }
                let r = RawValues::Items(out);
                proof {
                    assert(r@ matches RawValuesView::Items(a) && self@ matches RawValuesView::Items(
                        b,
                    ) ==> a =~= b);
                }
                r
            },
            RawValues::Joined(s) => RawValues::Joined(s.clone()),
            RawValues::Absent => RawValues::Absent,
        }
    }
}

impl RawParamEntry {
    /// A copy with the same variable and values.
    pub fn duplicate(&self) -> (r: RawParamEntry)
        ensures
            r@ == self@,
    {
        let var: Option<String> = match &self.var {
            Some(v) => Some(v.clone()),
            None => None,
        };
        RawParamEntry { var, values: self.values.duplicate() }
    }
}

impl RawItem {
    /// A copy with the same view.
    pub fn duplicate(&self) -> (r: RawItem)
        ensures
            r@ == self@,
    {
        match self {
            RawItem::Text(s) => RawItem::Text(s.clone()),
            RawItem::Entry(e) => RawItem::Entry(e.duplicate()),
            RawItem::Other => RawItem::Other,
        }
    }
}

impl OptionValue {
    /// A copy with the same view.
    pub fn duplicate(&self) -> (r: OptionValue)
        ensures
            r@ == self@,
    {
        match self {
            OptionValue::Text(s) => OptionValue::Text(s.clone()),
            OptionValue::Num(n) => OptionValue::Num(*n),
            OptionValue::Flag(b) => OptionValue::Flag(*b),
            OptionValue::ListVal(ls) => {
                let n = ls.len();
                let mut out: Vec<RawItem> = Vec::new();
                let mut i: usize = 0;
                while i < n
                    invariant
                        n == ls@.len(),
                        i <= n,
                        out@.len() == i,
                        forall|j: int| 0 <= j < i ==> (#[trigger] out@[j])@ == ls@[j]@,
                    decreases n - i,
                {
                    out.push(ls[i].duplicate());
                    i = i + 1;
                }
                let r = OptionValue::ListVal(out);
                proof {
                    assert(out@.map_values(|l: RawItem| l@) =~= ls@.map_values(
                        |l: RawItem| l@,
                    ));
                }
                r
            },
        }
    }
}

impl OptionMap {
    /// Inserts every entry of `src`, in order; `src` keys win.
    fn absorb(&mut self, src: &OptionMap)
        requires
            old(self).wf(),
            src.wf(),
        ensures
            final(self).wf(),
            final(self).entries_view() == oinsert_all(
                old(self).entries_view(),
                src.entries_view(),
            ),
    {
        let ghost sv = src.entries_view();
        let ghost start = self.entries_view();
        let n = src.entry_count();
        let mut i: usize = 0;
        proof {
            assert(sv.skip(0) =~= sv);
        }
        while i < n
            invariant
                n == sv.len(),
                sv == src.entries_view(),
                src.wf(),
                i <= n,
                self.wf(),
                oinsert_all(start, sv) == oinsert_all(self.entries_view(), sv.skip(i as int)),
            decreases n - i,
        {
            let key = src.key_at(i).clone();
            let value = src.value_at(i).duplicate();
            proof {
                assert(sv.skip(i as int)[0] == sv[i as int]);
                assert(sv.skip(i as int).skip(1) =~= sv.skip(i + 1));
            }
            self.insert(key, value);
            i = i + 1;
        }
        proof {
            assert(sv.skip(n as int) =~= Seq::<(Seq<char>, OptionValueView)>::empty());
        }
    }
}

/// A mapping denoted by a one-entry list prepended to a list: the rest
/// wins on a shared key.
pub proof fn lemma_omap_cons(
    a: (Seq<char>, OptionValueView),
    rest: Seq<(Seq<char>, OptionValueView)>,
)
    ensures
        omap_of(seq![a] + rest) == omap_of(seq![a]).union_prefer_right(omap_of(rest)),
    decreases rest.len(),
{
    if rest.len() == 0 {
        assert(seq![a] + rest =~= seq![a]);
        assert(omap_of(seq![a]).union_prefer_right(omap_of(rest)) =~= omap_of(seq![a]));
    } else {
        let dl = rest.drop_last();
        lemma_omap_cons(a, dl);
        assert((seq![a] + rest).drop_last() =~= seq![a] + dl);
        assert((seq![a] + rest).last() == rest.last());
        assert(omap_of(seq![a]).union_prefer_right(omap_of(dl)).insert(
            rest.last().0,
            rest.last().1,
        ) =~= omap_of(seq![a]).union_prefer_right(
            omap_of(dl).insert(rest.last().0, rest.last().1),
        ));
    }
}

/// Sequential insertion of a list of entries denotes the union of the two
/// mappings, the inserted entries winning on a shared key.
pub proof fn lemma_oinsert_all_denotes(
    ps: Seq<(Seq<char>, OptionValueView)>,
    adds: Seq<(Seq<char>, OptionValueView)>,
)
    requires
        okeys(ps).no_duplicates(),
    ensures
        okeys(oinsert_all(ps, adds)).no_duplicates(),
        omap_of(oinsert_all(ps, adds)) == omap_of(ps).union_prefer_right(omap_of(adds)),
    decreases adds.len(),
{
    if adds.len() == 0 {
        assert(omap_of(adds) == Map::<Seq<char>, OptionValueView>::empty());
        assert(omap_of(ps).union_prefer_right(Map::<Seq<char>, OptionValueView>::empty())
            =~= omap_of(ps));
    } else {
        let a0 = adds[0];
        lemma_oinsert(ps, a0.0, a0.1);
        lemma_oinsert_all_denotes(oinsert(ps, a0.0, a0.1), adds.skip(1));
        assert(adds =~= seq![a0] + adds.skip(1));
        lemma_omap_cons(a0, adds.skip(1));
        assert(seq![a0].drop_last() =~= Seq::<(Seq<char>, OptionValueView)>::empty());
        assert(omap_of(Seq::<(Seq<char>, OptionValueView)>::empty()) == Map::<
            Seq<char>,
            OptionValueView,
        >::empty());
        assert(seq![a0].last() == a0);
        assert(omap_of(seq![a0]) =~= Map::<Seq<char>, OptionValueView>::empty().insert(
            a0.0,
            a0.1,
        ));
        assert(omap_of(ps).insert(a0.0, a0.1).union_prefer_right(omap_of(adds.skip(1)))
            =~= omap_of(ps).union_prefer_right(
            Map::<Seq<char>, OptionValueView>::empty().insert(a0.0, a0.1).union_prefer_right(
                omap_of(adds.skip(1)),
            ),
        ));
    }
}

/// The merge of global and per-benchmark options: benchmark entries win on
/// a shared name.
pub fn merge_options(global: Option<&OptionMap>, bench: &OptionMap) -> (r: OptionMap)
    requires
        match global {
            Some(g) => g.wf(),
            None => true,
        },
        bench.wf(),
    ensures
        r.wf(),
        r.entries_view() == oinsert_all(
            match global {
                Some(g) => oinsert_all(Seq::<(Seq<char>, OptionValueView)>::empty(), g.entries_view()),
                None => Seq::<(Seq<char>, OptionValueView)>::empty(),
            },
            bench.entries_view(),
        ),
        match global {
            Some(g) => r@ == g@.union_prefer_right(bench@),
            None => r@ == bench@,
        },
{
    let mut r = OptionMap::new();
    match global {
        Some(g) => {
            r.absorb(g);
        },
        None => {},
    }
    r.absorb(bench);
    proof {
        let empty_entries = Seq::<(Seq<char>, OptionValueView)>::empty();
        assert(okeys(empty_entries) =~= Seq::<Seq<char>>::empty());
        match global {
            Some(g) => {
                lemma_oinsert_all_denotes(empty_entries, g.entries_view());
                lemma_oinsert_all_denotes(
                    oinsert_all(empty_entries, g.entries_view()),
                    bench.entries_view(),
                );
                assert(omap_of(empty_entries) =~= Map::<Seq<char>, OptionValueView>::empty());
                assert(Map::<Seq<char>, OptionValueView>::empty().union_prefer_right(g@)
                    =~= g@);
            },
            None => {
                lemma_oinsert_all_denotes(empty_entries, bench.entries_view());
                assert(omap_of(empty_entries) =~= Map::<Seq<char>, OptionValueView>::empty());
                assert(Map::<Seq<char>, OptionValueView>::empty().union_prefer_right(bench@)
                    =~= bench@);
            },
        }
    }
    r
}

/// The hook entries as character sequences.
pub open spec fn hook_views(hs: Seq<(String, OptionValue)>) -> Seq<(Seq<char>, OptionValueView)> {
    hs.map_values(|p: (String, OptionValue)| (p.0@, p.1@))
}

/// Appending only absent keys never disturbs a present binding.
pub proof fn lemma_oinsert_missing_preserves(
    ps: Seq<(Seq<char>, OptionValueView)>,
    adds: Seq<(Seq<char>, OptionValueView)>,
    k: Seq<char>,
)
    requires
        okeys(ps).no_duplicates(),
        omap_of(ps).contains_key(k),
    ensures
        okeys(oinsert_missing(ps, adds)).no_duplicates(),
        omap_of(oinsert_missing(ps, adds)).contains_key(k),
        omap_of(oinsert_missing(ps, adds))[k] == omap_of(ps)[k],
    decreases adds.len(),
{
    if adds.len() > 0 {
        let a0 = adds[0];
        lemma_okey_index_spec(ps, a0.0);
        if okey_index(ps, a0.0) < 0 {
            let next = ps.push(a0);
            lemma_omap_push(ps, a0.0, a0.1);
            assert(okeys(next) =~= okeys(ps).push(a0.0));
            assert(okeys(next).no_duplicates()) by {
                if !okeys(next).no_duplicates() {
                    let (x, y) = choose|x: int, y: int|
                        0 <= x < y < okeys(next).len() && okeys(next)[x] == okeys(next)[y];
                    if y == ps.len() {
                        assert(ps[x].0 == a0.0);
                    }
                }
            }
            lemma_omap_contains(ps, a0.0);
            assert(!okeys(ps).contains(a0.0)) by {
                if okeys(ps).contains(a0.0) {
                    let j = choose|j: int| 0 <= j < okeys(ps).len() && okeys(ps)[j] == a0.0;
                    assert(ps[j].0 == a0.0);
                }
            }
            assert(k != a0.0);
            lemma_oinsert_missing_preserves(next, adds.skip(1), k);
        } else {
            lemma_oinsert_missing_preserves(ps, adds.skip(1), k);
        }
    }
}

/// Adds each hook entry whose name is not already set; explicit entries
/// are never overwritten.
pub fn add_hook_entries(opts: &mut OptionMap, hooks: &Vec<(String, OptionValue)>)
    requires
        old(opts).wf(),
    ensures
        final(opts).wf(),
        final(opts).entries_view() == oinsert_missing(
            old(opts).entries_view(),
            hook_views(hooks@),
        ),
        forall|k: Seq<char>|
            old(opts)@.contains_key(k) ==> #[trigger] final(opts)@.contains_key(k)
                && final(opts)@[k] == old(opts)@[k],
{
    proof {
        assert forall|k: Seq<char>| old(opts)@.contains_key(k) implies #[trigger] omap_of(
            oinsert_missing(old(opts).entries_view(), hook_views(hooks@)),
        ).contains_key(k) && omap_of(
            oinsert_missing(old(opts).entries_view(), hook_views(hooks@)),
        )[k] == old(opts)@[k] by {
            lemma_oinsert_missing_preserves(old(opts).entries_view(), hook_views(hooks@), k);
        }
    }
    let ghost hv = hook_views(hooks@);
    let ghost start = opts.entries_view();
    let n = hooks.len();
    let mut i: usize = 0;
    proof {
        assert(hv.skip(0) =~= hv);
    }
    while i < n
        invariant
            n == hv.len(),
            hv == hook_views(hooks@),
            hv.len() == hooks@.len(),
            i <= n,
            opts.wf(),
            oinsert_missing(start, hv) == oinsert_missing(
                opts.entries_view(),
                hv.skip(i as int),
            ),
        decreases n - i,
    {
        let ghost cur = opts.entries_view();
        proof {
            assert(hv.skip(i as int)[0] == hv[i as int]);
            assert(hv[i as int] == (hooks@[i as int].0@, hooks@[i as int].1@));
            assert(hv.skip(i as int).skip(1) =~= hv.skip(i + 1));
            lemma_okey_index_spec(cur, hv[i as int].0);
        }
        let absent = match opts.get(hooks[i].0.as_str()) {
            Some(_) => false,
            None => true,
        };
        if absent {
            proof {
                lemma_omap_contains(cur, hv[i as int].0);
                assert(!okeys(cur).contains(hv[i as int].0));
                assert(okey_index(cur, hv[i as int].0) < 0) by {
                    let r = okey_index(cur, hv[i as int].0);
                    if r >= 0 {
                        assert(cur[r].0 == hv[i as int].0);
                        assert(okeys(cur)[r] == hv[i as int].0);
                        assert(okeys(cur).contains(hv[i as int].0));
                    }
                }
            }
            opts.insert(hooks[i].0.clone(), hooks[i].1.duplicate());
            proof {
                assert(oinsert(cur, hv[i as int].0, hv[i as int].1) == cur.push(hv[i as int]));
            }
        } else {
            proof {
                lemma_omap_contains(cur, hv[i as int].0);
                let j = choose|j: int|
                    0 <= j < okeys(cur).len() && okeys(cur)[j] == hv[i as int].0;
                assert(cur[j].0 == hv[i as int].0);
                assert(okey_index(cur, hv[i as int].0) >= 0) by {
                    let r = okey_index(cur, hv[i as int].0);
                    if r < 0 {
                        assert(cur[j].0 != hv[i as int].0);
                    }
                }
            }
        }
        i = i + 1;
    }
    proof {
        assert(hv.skip(n as int) =~= Seq::<(Seq<char>, OptionValueView)>::empty());
    }
}

/// How the `commit` parameter list is to be worked into the options.
enum Plan {
    InsertFresh,
    Append(Vec<RawItem>),
    Leave,
}

/// The implicit parameter list binding `commit` to the resolved revisions.
pub open spec fn commit_entry_view(commits: Seq<String>) -> RawItemView {
    RawItemView::Entry(
        RawEntryView {
            var: Some("commit"@),
            values: RawValuesView::Items(commits.map_values(|s: String| Some(s@))),
        },
    )
}

/// Whether some declared list already binds the variable `commit`.
pub open spec fn has_commit_list(ls: Seq<RawItemView>) -> bool {
    exists|j: int|
        0 <= j < ls.len() && ((#[trigger] ls[j]) matches RawItemView::Entry(e) && e.var == Some(
            "commit"@,
        ))
}

fn make_commit_entry(commits: &Vec<String>) -> (r: RawItem)
    ensures
        r@ == commit_entry_view(commits@),
{
    let n = commits.len();
    let mut items: Vec<Option<String>> = Vec::new();
    let mut i: usize = 0;
    while i < n
        invariant
            n == commits@.len(),
            i <= n,
            items@.len() == i,
            forall|j: int| 0 <= j < i ==> ((#[trigger] items@[j]) matches Some(s) && s@
                == commits@[j]@),
        decreases n - i,
    {
        items.push(Some(commits[i].clone()));
        i = i + 1;
    }
    let r = RawItem::Entry(
        RawParamEntry { var: Some("commit".to_owned()), values: RawValues::Items(items) },
    );
    proof {
        assert(items@.map_values(
            |o: Option<String>|
                match o {
                    Some(s) => Some(s@),
                    None => None,
                },
        ) =~= commits@.map_values(|s: String| Some(s@)));
    }
    r
}

/// Whether a list element is a table declaring the variable `commit`.
fn entry_is_commit(item: &RawItem) -> (r: bool)
    ensures
        r == (item@ matches RawItemView::Entry(e) && e.var == Some("commit"@)),
{
    match item {
        RawItem::Entry(e) => match &e.var {
            Some(v) => str_eq(v.as_str(), "commit"),
            None => false,
        },
        _ => false,
    }
}

/// Ensures the options declare a `commit` parameter list: if no
/// `parameter_lists` entry exists, one is created holding only the commit
/// list; if one exists as a list without a `commit` variable, the commit
/// list is appended; anything else is left untouched.
pub fn ensure_commit_list(opts: &mut OptionMap, commits: &Vec<String>)
    requires
        old(opts).wf(),
    ensures
        final(opts).wf(),
        !old(opts)@.contains_key("parameter_lists"@) ==> final(opts)@ == old(opts)@.insert(
            "parameter_lists"@,
            OptionValueView::ListVal(seq![commit_entry_view(commits@)]),
        ) && final(opts).entries_view() == oinsert(
            old(opts).entries_view(),
            "parameter_lists"@,
            OptionValueView::ListVal(seq![commit_entry_view(commits@)]),
        ),
        old(opts)@.contains_key("parameter_lists"@) ==> match old(
            opts,
        )@["parameter_lists"@] {
            OptionValueView::ListVal(ls) => {
                if has_commit_list(ls) {
                    final(opts)@ == old(opts)@ && final(opts).entries_view() == old(
                        opts,
                    ).entries_view()
                } else {
                    final(opts)@ == old(opts)@.insert(
                        "parameter_lists"@,
                        OptionValueView::ListVal(ls.push(commit_entry_view(commits@))),
                    ) && final(opts).entries_view() == oinsert(
                        old(opts).entries_view(),
                        "parameter_lists"@,
                        OptionValueView::ListVal(ls.push(commit_entry_view(commits@))),
                    )
                }
            },
            _ => final(opts)@ == old(opts)@ && final(opts).entries_view() == old(
                opts,
            ).entries_view(),
        },
{
    let plan: Plan = match opts.get("parameter_lists") {
        None => Plan::InsertFresh,
        Some(OptionValue::ListVal(ls)) => {
            let ghost lv = ls@.map_values(|l: RawItem| l@);
            let n = ls.len();
            let mut found = false;
            let mut i: usize = 0;
            while i < n
                invariant
                    n == ls@.len(),
                    lv == ls@.map_values(|l: RawItem| l@),
                    i <= n,
                    found == exists|j: int|
                        0 <= j < i && ((#[trigger] lv[j]) matches RawItemView::Entry(e) && e.var
                            == Some("commit"@)),
                decreases n - i,
            {
                let is_c = entry_is_commit(&ls[i]);
                proof {
                    assert(lv[i as int] == ls@[i as int]@);
                }
                if is_c {
                    found = true;
                }
                proof {
                    if is_c {
                        assert(lv[i as int] matches RawItemView::Entry(e) && e.var == Some(
                            "commit"@,
                        ));
                        assert(exists|j: int|
                            0 <= j < i + 1 && ((#[trigger] lv[j]) matches RawItemView::Entry(e)
                                && e.var == Some("commit"@)));
                    } else {
                        if exists|j: int|
                            0 <= j < i + 1 && ((#[trigger] lv[j]) matches RawItemView::Entry(e)
                                && e.var == Some("commit"@)) {
                            let j = choose|j: int|
                                0 <= j < i + 1 && ((#[trigger] lv[j]) matches RawItemView::Entry(
                                    e,
                                ) && e.var == Some("commit"@));
                            assert(j < i);
                        }
                    }
                }
                i = i + 1;
            }
            if found {
                Plan::Leave
            } else {
                let m = ls.len();
                let mut copy: Vec<RawItem> = Vec::new();
                let mut k: usize = 0;
                while k < m
                    invariant
                        m == ls@.len(),
                        lv == ls@.map_values(|l: RawItem| l@),
                        k <= m,
                        copy@.len() == k,
                        forall|j: int| 0 <= j < k ==> (#[trigger] copy@[j])@ == lv[j],
                    decreases m - k,
                {
                    copy.push(ls[k].duplicate());
                    k = k + 1;
                }
                copy.push(make_commit_entry(commits));
                proof {
                    assert(copy@.map_values(|l: RawItem| l@) =~= lv.push(
                        commit_entry_view(commits@),
                    ));
                }
                Plan::Append(copy)
            }
        },
        Some(_) => Plan::Leave,
    };
    match plan {
        Plan::InsertFresh => {
            let entry = make_commit_entry(commits);
            let mut fresh: Vec<RawItem> = Vec::new();
            fresh.push(entry);
            proof {
                assert(fresh@.map_values(|l: RawItem| l@) =~= seq![
                    commit_entry_view(commits@),
                ]);
            }
            opts.insert("parameter_lists".to_owned(), OptionValue::ListVal(fresh));
        },
        Plan::Append(copy) => {
            opts.insert("parameter_lists".to_owned(), OptionValue::ListVal(copy));
        },
        Plan::Leave => {},
    }
}

/// The invocation of the per-revision artifact that replaces the bare base
/// command: the binary path keyed by `{commit}`, the chain flag, and the
/// data directory flag.
pub open spec fn artifact_invocation(
    bin_dir: Seq<char>,
    network: Seq<char>,
    data_dir: Seq<char>,
) -> Seq<char> {
    bin_dir + "/bitcoind-{commit} -chain="@ + network + " -datadir="@ + data_dir
}

/// Rewrites a string `command` option, replacing every occurrence of the
/// base command `bitcoind` with the per-revision artifact invocation;
/// options without a string `command` are left untouched.
pub fn rewrite_command(opts: &mut OptionMap, bin_dir: &str, network: &str, data_dir: &str)
    requires
        old(opts).wf(),
    ensures
        final(opts).wf(),
        old(opts)@.contains_key("command"@) && old(opts)@["command"@] is Text ==> final(opts)@
            == old(opts)@.insert(
            "command"@,
            OptionValueView::Text(
                replace_all_spec(
                    old(opts)@["command"@]->Text_0,
                    "bitcoind"@,
                    artifact_invocation(bin_dir@, network@, data_dir@),
                ),
            ),
        ) && final(opts).entries_view() == oinsert(
            old(opts).entries_view(),
            "command"@,
            OptionValueView::Text(
                replace_all_spec(
                    old(opts)@["command"@]->Text_0,
                    "bitcoind"@,
                    artifact_invocation(bin_dir@, network@, data_dir@),
                ),
            ),
        ),
        !(old(opts)@.contains_key("command"@) && old(opts)@["command"@] is Text)
            ==> final(opts)@ == old(opts)@ && final(opts).entries_view() == old(
            opts,
        ).entries_view(),
{
    let cmd: Option<String> = match opts.get("command") {
        Some(OptionValue::Text(s)) => Some(s.clone()),
        _ => None,
    };
    match cmd {
        Some(s) => {
            let mut replacement = bin_dir.to_owned();
            replacement.append("/bitcoind-{commit} -chain=");
            replacement.append(network);
            replacement.append(" -datadir=");
            replacement.append(data_dir);
            proof {
                reveal_strlit("/bitcoind-{commit} -chain=");
                reveal_strlit(" -datadir=");
                reveal_strlit("bitcoind");
                assert(replacement@ =~= artifact_invocation(bin_dir@, network@, data_dir@));
                assert("bitcoind"@.len() > 0);
            }
            let rewritten = replace_all(s.as_str(), "bitcoind", replacement.as_str());
            opts.insert("command".to_owned(), OptionValue::Text(rewritten));
        },
        None => {},
    }
}

} // verus!
