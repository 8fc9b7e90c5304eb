//! Synthesis of the external benchmark tool's invocation from a merged
//! option map: each option becomes flags in the tool's argument grammar,
//! and the command template stands last.

use vstd::prelude::*;
use crate::strutil::str_eq;
use crate::strutil::replace_all;
use crate::strutil::replace_all_spec;
use crate::strutil::dec_int;
use crate::strutil::i64_to_string;
use crate::strutil::join_with;
use crate::strutil::join_strings;
use crate::strutil::views_of;
use crate::options::OptionMap;
use crate::options::OptionValue;
use crate::options::OptionValueView;
use crate::options::RawItem;
use crate::options::RawItemView;
use crate::options::RawValuesView;
use crate::parameters::RawValues;

verus! {

/// Why an invocation could not be synthesized.
#[derive(Debug, PartialEq, Eq, Structural)]
pub enum SynthError {
    /// No string `command` option is present.
    MissingCommand,
    /// No string `export_json` option is present, so results could not be
    /// located afterwards.
    MissingExportPath,
    /// A `parameter_lists` element lacks `var` or `values`, or a value is
    /// not a string.
    MalformedParameterList,
}

/// The flag for an option name: `--` and the name with underscores as
/// hyphens.
pub open spec fn flag_of(key: Seq<char>) -> Seq<char> {
    seq!['-', '-'] + replace_all_spec(key, seq!['_'], seq!['-'])
}

/// A well-formed parameter-list element: a table with a string `var` and
/// an array of string `values`.
pub open spec fn item_ok(it: RawItemView) -> bool {
    &&& it matches RawItemView::Entry(e)
    &&& e.var is Some
    &&& e.values matches RawValuesView::Items(vs) && forall|j: int|
        0 <= j < vs.len() ==> (#[trigger] vs[j]) is Some
}

/// Every element of a declared `parameter_lists` value is well formed.
pub open spec fn plist_items_ok(ls: Seq<RawItemView>) -> bool {
    forall|j: int| 0 <= j < ls.len() ==> item_ok(#[trigger] ls[j])
}

/// The texts of declared values, reading a non-string element as empty.
pub open spec fn some_texts(vs: Seq<Option<Seq<char>>>) -> Seq<Seq<char>>
    decreases vs.len(),
{
    if vs.len() == 0 {
        Seq::empty()
    } else {
        let head = match vs[0] {
            Some(t) => t,
            None => Seq::<char>::empty(),
        };
        seq![head] + some_texts(vs.skip(1))
    }
}

/// The `--command-name` arguments: one per string element, in order.
pub open spec fn command_name_args(ls: Seq<RawItemView>) -> Seq<Seq<char>>
    decreases ls.len(),
{
    if ls.len() == 0 {
        Seq::empty()
    } else {
        let rest = command_name_args(ls.skip(1));
        match ls[0] {
            RawItemView::Text(s) => seq!["--command-name"@, s] + rest,
            _ => rest,
        }
    }
}

/// The `--parameter-list` arguments: variable and comma-joined values per
/// well-formed element, in order.
pub open spec fn plist_args(ls: Seq<RawItemView>) -> Seq<Seq<char>>
    decreases ls.len(),
{
    if ls.len() == 0 {
        Seq::empty()
    } else {
        let rest = plist_args(ls.skip(1));
        match ls[0] {
            RawItemView::Entry(e) => match (e.var, e.values) {
                (Some(v), RawValuesView::Items(its)) => seq![
                    "--parameter-list"@,
                    v,
                    join_with(some_texts(its), seq![',']),
                ] + rest,
                _ => rest,
            },
            _ => rest,
        }
    }
}

/// The arguments one option contributes, by the rendering table of the
/// tool's grammar.
pub open spec fn entry_args(key: Seq<char>, v: OptionValueView) -> Seq<Seq<char>> {
    match v {
        OptionValueView::Text(s) => seq![flag_of(key), s],
        OptionValueView::Num(n) => seq![flag_of(key), dec_int(n)],
        OptionValueView::Flag(b) => if b {
            seq![flag_of(key)]
        } else {
            Seq::empty()
        },
        OptionValueView::ListVal(ls) => if key == "command_names"@ {
            command_name_args(ls)
        } else if key == "parameter_lists"@ {
            plist_args(ls)
        } else {
            Seq::empty()
        },
    }
}

/// The arguments of all options but `command`, in entry order.
pub open spec fn args_of_entries(ps: Seq<(Seq<char>, OptionValueView)>) -> Seq<Seq<char>>
    decreases ps.len(),
{
    if ps.len() == 0 {
        Seq::empty()
    } else {
        let head = if ps[0].0 == "command"@ {
            Seq::<Seq<char>>::empty()
        } else {
            entry_args(ps[0].0, ps[0].1)
        };
        head + args_of_entries(ps.skip(1))
    }
}

/// Whether some `parameter_lists` option holds a malformed element.
pub open spec fn plists_malformed(ps: Seq<(Seq<char>, OptionValueView)>) -> bool {
    exists|i: int|
        0 <= i < ps.len() && (#[trigger] ps[i]).0 == "parameter_lists"@ && (ps[i].1 matches
        OptionValueView::ListVal(ls) && !plist_items_ok(ls))
}

/// The final positional argument: the command string, with the global
/// wrapper prepended when one is configured.
pub open spec fn final_command(cmd: Seq<char>, wrapper: Option<Seq<char>>) -> Seq<char> {
    match wrapper {
        Some(w) => w + seq![' '] + cmd,
        None => cmd,
    }
}

/// The wrapper as a character sequence, when one is configured.
pub open spec fn wrapper_view(wrapper: Option<&String>) -> Option<Seq<char>> {
    match wrapper {
        Some(w) => Some(w@),
        None => None,
    }
}

fn make_flag(key: &str) -> (r: String)
    ensures
        r@ == flag_of(key@),
{
    proof {
        reveal_strlit("--");
        reveal_strlit("_");
        reveal_strlit("-");
    }
    let hyphened = replace_all(key, "_", "-");
    let mut r = "--".to_owned();
    r.append(hyphened.as_str());
    proof {
        assert("_"@ =~= seq!['_']);
        assert("-"@ =~= seq!['-']);
        assert(r@ =~= flag_of(key@));
    }
    r
}

/// The full argument list of one tool invocation: the flags of every
/// option but `command` in entry order, then the wrapped command string as
/// the final positional argument. Fails fast when no string `export_json`
/// option is present, when no string `command` option is present, or when
/// a `parameter_lists` element is malformed — in that order, before
/// anything runs.
pub fn build_hyperfine_args(opts: &OptionMap, wrapper: Option<&String>) -> (r: Result<
    Vec<String>,
    SynthError,
>)
    requires
        opts.wf(),
    ensures
        !(opts@.contains_key("export_json"@) && opts@["export_json"@] is Text) ==> (r matches
            Err(e) && e == SynthError::MissingExportPath),
        opts@.contains_key("export_json"@) && opts@["export_json"@] is Text && !(
        opts@.contains_key("command"@) && opts@["command"@] is Text) ==> (r matches Err(e) && e
            == SynthError::MissingCommand),
        opts@.contains_key("export_json"@) && opts@["export_json"@] is Text
            && opts@.contains_key("command"@) && opts@["command"@] is Text && plists_malformed(
            opts.entries_view(),
        ) ==> (r matches Err(e) && e == SynthError::MalformedParameterList),
        opts@.contains_key("export_json"@) && opts@["export_json"@] is Text
            && opts@.contains_key("command"@) && opts@["command"@] is Text && !plists_malformed(
            opts.entries_view(),
        ) ==> (r matches Ok(args) && views_of(args@) == args_of_entries(opts.entries_view())
            + seq![
            final_command(opts@["command"@]->Text_0, wrapper_view(wrapper)),
        ]),
{
    let export_ok = match opts.get("export_json") {
        Some(OptionValue::Text(_)) => true,
        _ => false,
    };
    if !export_ok {
        return Err(SynthError::MissingExportPath);
    }
    let command_str: String = match opts.get("command") {
        Some(OptionValue::Text(s)) => s.clone(),
        _ => {
            return Err(SynthError::MissingCommand);
        },
    };
    let ghost ev = opts.entries_view();
    let mut out: Vec<String> = Vec::new();
    let n = opts.entry_count();
    let mut i: usize = 0;
    proof {
        assert(ev.skip(0) =~= ev);
        assert(views_of(out@) =~= Seq::<Seq<char>>::empty());
        assert(Seq::<Seq<char>>::empty() + args_of_entries(ev) =~= args_of_entries(ev));
    }
    while i < n
        invariant
            opts.wf(),
            ev == opts.entries_view(),
            opts@.contains_key("export_json"@) && opts@["export_json"@] is Text,
            opts@.contains_key("command"@) && opts@["command"@] is Text,
            n == ev.len(),
            i <= n,
            args_of_entries(ev) == views_of(out@) + args_of_entries(ev.skip(i as int)),
            forall|j: int|
                0 <= j < i ==> !((#[trigger] ev[j]).0 == "parameter_lists"@ && (ev[j].1 matches
                OptionValueView::ListVal(ls) && !plist_items_ok(ls))),
        decreases n - i,
    {
        let ghost rest = ev.skip(i as int);
        proof {
            reveal_strlit("command");
            reveal_strlit("command_names");
            reveal_strlit("parameter_lists");
        }
        proof {
            assert("command"@.len() == 7);
            assert("command_names"@.len() == 13);
            assert("parameter_lists"@.len() == 15);
            assert("command"@ != "parameter_lists"@);
            assert("command_names"@ != "parameter_lists"@);
            assert(rest[0] == ev[i as int]);
            assert(rest.skip(1) =~= ev.skip(i + 1));
        }
        let key = opts.key_at(i);
        let ghost before = views_of(out@);
        if str_eq(key.as_str(), "command") {
            proof {
                assert(ev[i as int].0 != "parameter_lists"@);
                assert(views_of(out@) + args_of_entries(ev.skip(i + 1)) =~= before + (Seq::<
                    Seq<char>,
                >::empty() + args_of_entries(ev.skip(i + 1))));
            }
            i = i + 1;
            continue ;
        }
        let flag = make_flag(key.as_str());
        match opts.value_at(i) {
            OptionValue::Text(s) => {
                out.push(flag);
                out.push(s.clone());
                proof {
                    assert(views_of(out@) =~= before + entry_args(ev[i as int].0,
                        ev[i as int].1));
                    assert(views_of(out@) + args_of_entries(ev.skip(i + 1)) =~= before + (
                    entry_args(ev[i as int].0, ev[i as int].1) + args_of_entries(
                        ev.skip(i + 1),
                    )));
                }
            },
            OptionValue::Num(v) => {
                out.push(flag);
                out.push(i64_to_string(*v));
                proof {
                    assert(views_of(out@) =~= before + entry_args(ev[i as int].0,
                        ev[i as int].1));
                    assert(views_of(out@) + args_of_entries(ev.skip(i + 1)) =~= before + (
                    entry_args(ev[i as int].0, ev[i as int].1) + args_of_entries(
                        ev.skip(i + 1),
                    )));
                }
            },
            OptionValue::Flag(b) => {
                if *b {
                    out.push(flag);
                }
                proof {
                    assert(views_of(out@) =~= before + entry_args(ev[i as int].0,
                        ev[i as int].1));
                    assert(views_of(out@) + args_of_entries(ev.skip(i + 1)) =~= before + (
                    entry_args(ev[i as int].0, ev[i as int].1) + args_of_entries(
                        ev.skip(i + 1),
                    )));
                }
            },
            OptionValue::ListVal(ls) => {
                let ghost lv = ls@.map_values(|l: RawItem| l@);
                proof {
                    assert(ev[i as int].1 matches OptionValueView::ListVal(x) && x == lv);
                }
                if str_eq(key.as_str(), "command_names") {
                    let m = ls.len();
                    let mut j: usize = 0;
                    proof {
                        assert(lv.skip(0) =~= lv);
                    }
                    while j < m
                        invariant
                            m == lv.len(),
                            lv == ls@.map_values(|l: RawItem| l@),
                            j <= m,
                            before + command_name_args(lv) == views_of(out@)
                                + command_name_args(lv.skip(j as int)),
                        decreases m - j,
                    {
                        let ghost mid = views_of(out@);
                        proof {
                            assert(lv.skip(j as int)[0] == lv[j as int]);
                            assert(lv[j as int] == ls@[j as int]@);
                            assert(lv.skip(j as int).skip(1) =~= lv.skip(j + 1));
                        }
                        match &ls[j] {
                            RawItem::Text(s) => {
                                let cn = "--command-name".to_owned();
                                proof {
                                    reveal_strlit("--command-name");
                                }
                                out.push(cn);
                                out.push(s.clone());
                                proof {
                                    assert(views_of(out@) =~= mid + seq!["--command-name"@, s@]);
                                    assert(views_of(out@) + command_name_args(lv.skip(j + 1))
                                        =~= mid + (seq!["--command-name"@, s@]
                                        + command_name_args(lv.skip(j + 1))));
                                }
                            },
                            _ => {},
                        }
                        j = j + 1;
                    }
                    proof {
                        reveal_strlit("command_names");
                        reveal_strlit("parameter_lists");
                        assert(ev[i as int].0 != "parameter_lists"@);
                        assert(lv.skip(m as int) =~= Seq::<RawItemView>::empty());
                        assert(command_name_args(Seq::<RawItemView>::empty()) == Seq::<
                            Seq<char>,
                        >::empty());
                        assert(views_of(out@) + Seq::<Seq<char>>::empty() =~= views_of(out@));
                        assert(views_of(out@) =~= before + command_name_args(lv));
                        assert(views_of(out@) + args_of_entries(ev.skip(i + 1)) =~= before + (
                        command_name_args(lv) + args_of_entries(ev.skip(i + 1))));
                    }
                } else if str_eq(key.as_str(), "parameter_lists") {
                    let m = ls.len();
                    let mut j: usize = 0;
                    proof {
                        assert(lv.skip(0) =~= lv);
                    }
                    while j < m
                        invariant
                            opts.wf(),
                            ev == opts.entries_view(),
                            opts@.contains_key("export_json"@) && opts@["export_json"@] is Text,
                            opts@.contains_key("command"@) && opts@["command"@] is Text,
                            n == ev.len(),
                            i < n,
                            ev[i as int].0 == "parameter_lists"@,
                            ev[i as int].1 matches OptionValueView::ListVal(x) && x == lv,
                            m == lv.len(),
                            lv == ls@.map_values(|l: RawItem| l@),
                            j <= m,
                            forall|q: int| 0 <= q < j ==> item_ok(#[trigger] lv[q]),
                            before + plist_args(lv) == views_of(out@) + plist_args(
                                lv.skip(j as int),
                            ),
                        decreases m - j,
                    {
                        let ghost mid = views_of(out@);
                        proof {
                            assert(lv.skip(j as int)[0] == lv[j as int]);
                            assert(lv[j as int] == ls@[j as int]@);
                            assert(lv.skip(j as int).skip(1) =~= lv.skip(j + 1));
                        }
                        let entry = match &ls[j] {
                            RawItem::Entry(e) => e,
                            _ => {
                                proof {
                                    assert(!item_ok(lv[j as int]));
                                    assert(!plist_items_ok(lv));
                                    assert(plists_malformed(ev));
                                }
                                return Err(SynthError::MalformedParameterList);
                            },
                        };
                        let var: &String = match &entry.var {
                            Some(v) => v,
                            None => {
                                proof {
                                    assert(!item_ok(lv[j as int]));
                                    assert(!plist_items_ok(lv));
                                    assert(plists_malformed(ev));
                                }
                                return Err(SynthError::MalformedParameterList);
                            },
                        };
                        let items: &Vec<Option<String>> = match &entry.values {
                            RawValues::Items(its) => its,
                            _ => {
                                proof {
                                    assert(!item_ok(lv[j as int]));
                                    assert(!plist_items_ok(lv));
                                    assert(plists_malformed(ev));
                                }
                                return Err(SynthError::MalformedParameterList);
                            },
                        };
                        let ghost itv = items@.map_values(
                            |o: Option<String>|
                                match o {
                                    Some(s) => Some(s@),
                                    None => None,
                                },
                        );
                        proof {
                            assert(lv[j as int] matches RawItemView::Entry(e2) && e2.values
                                matches RawValuesView::Items(x) && x == itv);
                        }
                        let mut vals: Vec<String> = Vec::new();
                        let p = items.len();
                        let mut q: usize = 0;
                        proof {
                            assert(itv.skip(0) =~= itv);
                            assert(views_of(vals@) =~= Seq::<Seq<char>>::empty());
                            assert(Seq::<Seq<char>>::empty() + some_texts(itv) =~= some_texts(
                                itv,
                            ));
                        }
                        while q < p
                            invariant
                                ev == opts.entries_view(),
                                opts@.contains_key("export_json"@) && opts@["export_json"@]
                                    is Text,
                                opts@.contains_key("command"@) && opts@["command"@] is Text,
                                0 <= i < ev.len(),
                                ev[i as int].0 == "parameter_lists"@,
                                (ev[i as int].1 matches OptionValueView::ListVal(x) && x == lv),
                                0 <= j < lv.len(),
                                (lv[j as int] matches RawItemView::Entry(e2) && e2.var is Some
                                    && (e2.values matches RawValuesView::Items(y) && y == itv)),
                                p == itv.len(),
                                itv == items@.map_values(
                                    |o: Option<String>|
                                        match o {
                                            Some(s) => Some(s@),
                                            None => None,
                                        },
                                ),
                                q <= p,
                                forall|t: int| 0 <= t < q ==> (#[trigger] itv[t]) is Some,
                                some_texts(itv) == views_of(vals@) + some_texts(
                                    itv.skip(q as int),
                                ),
                            decreases p - q,
                        {
                            let ghost midv = views_of(vals@);
                            proof {
                                assert(itv.skip(q as int)[0] == itv[q as int]);
                                assert(itv.skip(q as int).skip(1) =~= itv.skip(q + 1));
                            }
                            match &items[q] {
                                Some(s) => {
                                    vals.push(s.clone());
                                    proof {
                                        assert(views_of(vals@) =~= midv.push(s@));
                                        assert(itv[q as int] == Some(s@));
                                        assert(views_of(vals@) + some_texts(itv.skip(q + 1))
                                            =~= midv + (seq![s@] + some_texts(itv.skip(q + 1))));
                                    }
                                },
                                None => {
                                    proof {
                                        assert(itv[q as int] is None);
                                        assert(!item_ok(lv[j as int]));
                                        assert(!plist_items_ok(lv));
                                        assert(plists_malformed(ev));
                                    }
                                    return Err(SynthError::MalformedParameterList);
                                },
                            }
                            q = q + 1;
                        }
                        proof {
                            assert(itv.skip(p as int) =~= Seq::<Option<Seq<char>>>::empty());
                            assert(some_texts(Seq::<Option<Seq<char>>>::empty()) == Seq::<
                                Seq<char>,
                            >::empty());
                            assert(views_of(vals@) + Seq::<Seq<char>>::empty() =~= views_of(
                                vals@,
                            ));
                            assert(views_of(vals@) =~= some_texts(itv));
                        }
                        let joined = join_strings(&vals, ",");
                        let pl = "--parameter-list".to_owned();
                        proof {
                            reveal_strlit("--parameter-list");
                            reveal_strlit(",");
                            assert(","@ =~= seq![',']);
                        }
                        out.push(pl);
                        out.push(var.clone());
                        out.push(joined);
                        proof {
                            assert(item_ok(lv[j as int]));
                            assert(views_of(out@) =~= mid + seq!["--parameter-list"@, var@,
                                join_with(some_texts(itv), seq![','])]);
                            assert(views_of(out@) + plist_args(lv.skip(j + 1)) =~= mid + (seq![
                                "--parameter-list"@,
                                var@,
                                join_with(some_texts(itv), seq![',']),
                            ] + plist_args(lv.skip(j + 1))));
                        }
                        j = j + 1;
                    }
                    proof {
                        assert(plist_items_ok(lv));
                        assert(!(ev[i as int].1 matches OptionValueView::ListVal(x)
                            && !plist_items_ok(x)));
                        assert(lv.skip(m as int) =~= Seq::<RawItemView>::empty());
                        assert(plist_args(Seq::<RawItemView>::empty()) == Seq::<
                            Seq<char>,
                        >::empty());
                        assert(views_of(out@) + Seq::<Seq<char>>::empty() =~= views_of(out@));
                        assert(views_of(out@) =~= before + plist_args(lv));
                        assert(views_of(out@) + args_of_entries(ev.skip(i + 1)) =~= before + (
                        plist_args(lv) + args_of_entries(ev.skip(i + 1))));
                    }
                } else {
                    proof {
                        assert(entry_args(ev[i as int].0, ev[i as int].1) == Seq::<
                            Seq<char>,
                        >::empty());
                        assert(views_of(out@) + args_of_entries(ev.skip(i + 1)) =~= before + (
                        Seq::<Seq<char>>::empty() + args_of_entries(ev.skip(i + 1))));
                    }
                }
            },
        }
        i = i + 1;
    }
    proof {
        assert(ev.skip(n as int) =~= Seq::<(Seq<char>, OptionValueView)>::empty());
        assert(args_of_entries(Seq::<(Seq<char>, OptionValueView)>::empty()) == Seq::<
            Seq<char>,
        >::empty());
        assert(views_of(out@) + Seq::<Seq<char>>::empty() =~= views_of(out@));
        if plists_malformed(ev) {
            let w = choose|w: int|
                0 <= w < ev.len() && (#[trigger] ev[w]).0 == "parameter_lists"@ && (ev[w].1
                    matches OptionValueView::ListVal(ls) && !plist_items_ok(ls));
            assert(false);
        }
    }
    let last: String = match wrapper {
        Some(w) => {
            let mut s = w.clone();
            s.append(" ");
            s.append(command_str.as_str());
            proof {
                reveal_strlit(" ");
                assert(s@ =~= final_command(command_str@, wrapper_view(wrapper)));
            }
            s
        },
        None => command_str,
    };
    let ghost pre = views_of(out@);
    out.push(last);
    proof {
        assert(views_of(out@) =~= pre + seq![final_command(opts@["command"@]->Text_0,
            wrapper_view(wrapper))]);
    }
    Ok(out)
}

} // verus!
