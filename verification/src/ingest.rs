//! Planning the ingestion of the external tool's timing report into
//! relational rows: one benchmark row and one aggregate row per result
//! entry, and one measurement row per timed iteration, ordinals in
//! reporting order.
//!
//! The store's statistics columns are floating point; the plan carries
//! each such value as the raw bits of its 64-bit encoding, which the
//! database layer converts back unchanged.

use vstd::prelude::*;

verus! {

/// One result entry of the tool's report: the command timed, its
/// aggregate statistics, and the paired per-iteration times and exit
/// codes.
#[derive(Debug)]
pub struct ResultEntry {
    /// The exact command line the tool timed.
    pub command: String,
    pub mean_bits: u64,
    pub stddev_bits: u64,
    pub median_bits: u64,
    pub user_bits: u64,
    pub system_bits: u64,
    pub min_bits: u64,
    pub max_bits: u64,
    /// Wall time of each iteration, in reporting order.
    pub times_bits: Vec<u64>,
    /// Exit code of each iteration, paired with the time of the same
    /// position.
    pub exit_codes: Vec<i32>,
}

/// The whole report: one entry per distinct command line.
#[derive(Debug)]
pub struct ResultsDoc {
    pub results: Vec<ResultEntry>,
}

/// One row of the benchmarks relation.
#[derive(Debug)]
pub struct BenchmarkRow {
    pub name: String,
    pub command: String,
    pub pull_request_number: Option<i32>,
    pub run_id: Option<i32>,
}

/// One row of the aggregate-statistics relation, referencing its
/// benchmark row by position in the plan.
#[derive(Debug, PartialEq, Eq, Structural)]
pub struct RunRow {
    pub benchmark_index: usize,
    pub mean_bits: u64,
    pub stddev_bits: u64,
    pub median_bits: u64,
    pub user_bits: u64,
    pub system_bits: u64,
    pub min_bits: u64,
    pub max_bits: u64,
}

/// One row of the measurements relation, referencing its aggregate row by
/// position in the plan.
#[derive(Debug, PartialEq, Eq, Structural)]
pub struct MeasurementRow {
    pub run_index: usize,
    pub time_bits: u64,
    pub exit_code: i32,
    pub measurement_order: i32,
}

/// Everything one ingestion persists, in insertion order.
#[derive(Debug)]
pub struct IngestionPlan {
    pub benchmarks: Vec<BenchmarkRow>,
    pub runs: Vec<RunRow>,
    pub measurements: Vec<MeasurementRow>,
}

/// How many measurement rows one entry yields: its times paired with its
/// exit codes, the shorter list deciding.
pub open spec fn entry_count(entry: ResultEntry) -> int {
    if entry.times_bits@.len() <= entry.exit_codes@.len() {
        entry.times_bits@.len() as int
    } else {
        entry.exit_codes@.len() as int
    }
}

/// The measurement rows of the entry at position `e`, ordinals starting
/// at zero in reporting order.
pub open spec fn entry_rows(entry: ResultEntry, e: int) -> Seq<MeasurementRow> {
    Seq::new(
        entry_count(entry) as nat,
        |k: int|
            MeasurementRow {
                run_index: e as usize,
                time_bits: entry.times_bits@[k],
                exit_code: entry.exit_codes@[k],
                measurement_order: k as i32,
            },
    )
}

/// The measurement rows of the first `upto` entries, in entry order.
pub open spec fn all_rows(results: Seq<ResultEntry>, upto: int) -> Seq<MeasurementRow>
    decreases upto,
{
    if upto <= 0 {
        Seq::empty()
    } else {
        all_rows(results, upto - 1) + entry_rows(results[upto - 1], upto - 1)
    }
}

/// How many measurement rows the first `upto` entries yield in all.
pub open spec fn total_measures(results: Seq<ResultEntry>, upto: int) -> int
    decreases upto,
{
    if upto <= 0 {
        0
    } else {
        total_measures(results, upto - 1) + entry_count(results[upto - 1])
    }
}

pub proof fn lemma_all_rows_len(results: Seq<ResultEntry>, upto: int)
    ensures
        all_rows(results, upto).len() == total_measures(results, upto),
        total_measures(results, upto) >= 0,
    decreases upto,
{
    if upto > 0 {
        lemma_all_rows_len(results, upto - 1);
        assert(entry_rows(results[upto - 1], upto - 1).len() == entry_count(results[upto - 1]));
    }
}

pub proof fn lemma_total_measures_mono(results: Seq<ResultEntry>, a: int, b: int)
    requires
        a <= b,
    ensures
        total_measures(results, a) <= total_measures(results, b),
    decreases b - a,
{
    if a < b {
        lemma_total_measures_mono(results, a, b - 1);
        if b > 0 {
            assert(entry_count(results[b - 1]) >= 0);
        }
    }
}

/// Where each measurement row of each entry stands: the rows of entry `e`
/// form one contiguous block after those of the earlier entries, carry
/// its index, and their ordinals count up from zero in reporting order.
pub proof fn lemma_measurement_ordinals(results: Seq<ResultEntry>, upto: int, e: int, k: int)
    requires
        0 <= e < upto <= results.len(),
        0 <= k < entry_count(results[e]),
    ensures
        0 <= total_measures(results, e) + k < all_rows(results, upto).len(),
        all_rows(results, upto)[total_measures(results, e) + k] == (MeasurementRow {
            run_index: e as usize,
            time_bits: results[e].times_bits@[k],
            exit_code: results[e].exit_codes@[k],
            measurement_order: k as i32,
        }),
    decreases upto,
{
    lemma_all_rows_len(results, upto);
    lemma_all_rows_len(results, upto - 1);
    lemma_all_rows_len(results, e);
    if e == upto - 1 {
        assert(all_rows(results, upto) == all_rows(results, upto - 1) + entry_rows(
            results[e],
            e,
        ));
        assert(all_rows(results, upto)[total_measures(results, e) + k] == entry_rows(
            results[e],
            e,
        )[k]);
    } else {
        lemma_measurement_ordinals(results, upto - 1, e, k);
        lemma_total_measures_mono(results, e + 1, upto - 1);
        assert(total_measures(results, e) + k < total_measures(results, e + 1));
        assert(all_rows(results, upto)[total_measures(results, e) + k] == all_rows(
            results,
            upto - 1,
        )[total_measures(results, e) + k]);
    }
}

/// The plan for ingesting a report: one benchmark row and one aggregate
/// row per result entry, in order, and one measurement row per paired
/// time and exit code, ordinals counting from zero per entry. A report of
/// `R` entries thus yields exactly `R` benchmark rows, `R` aggregate rows,
/// and as many measurement rows as the entries have pairs in all.
pub fn plan_ingestion(
    bench_name: &str,
    doc: &ResultsDoc,
    pull_request_number: Option<i32>,
    run_id: Option<i32>,
) -> (plan: IngestionPlan)
    requires
        forall|e: int|
            0 <= e < doc.results@.len() ==> entry_count(#[trigger] doc.results@[e])
                <= 0x7fff_ffff,
    ensures
        plan.benchmarks@.len() == doc.results@.len(),
        plan.runs@.len() == doc.results@.len(),
        forall|e: int|
            0 <= e < doc.results@.len() ==> {
                let b = #[trigger] plan.benchmarks@[e];
                b.name@ == bench_name@ && b.command@ == doc.results@[e].command@
                    && b.pull_request_number == pull_request_number && b.run_id == run_id
            },
        forall|e: int|
            0 <= e < doc.results@.len() ==> #[trigger] plan.runs@[e] == (RunRow {
                benchmark_index: e as usize,
                mean_bits: doc.results@[e].mean_bits,
                stddev_bits: doc.results@[e].stddev_bits,
                median_bits: doc.results@[e].median_bits,
                user_bits: doc.results@[e].user_bits,
                system_bits: doc.results@[e].system_bits,
                min_bits: doc.results@[e].min_bits,
                max_bits: doc.results@[e].max_bits,
            }),
        plan.measurements@ == all_rows(doc.results@, doc.results@.len() as int),
        plan.measurements@.len() == total_measures(doc.results@, doc.results@.len() as int),
{
    let ghost rs = doc.results@;
    let mut benchmarks: Vec<BenchmarkRow> = Vec::new();
    let mut runs: Vec<RunRow> = Vec::new();
    let mut measurements: Vec<MeasurementRow> = Vec::new();
    let n = doc.results.len();
    let mut e: usize = 0;
    while e < n
        invariant
            rs == doc.results@,
            n == rs.len(),
            e <= n,
            benchmarks@.len() == e,
            runs@.len() == e,
            forall|i: int|
                0 <= i < e ==> {
                    let b = #[trigger] benchmarks@[i];
                    b.name@ == bench_name@ && b.command@ == rs[i].command@
                        && b.pull_request_number == pull_request_number && b.run_id == run_id
                },
            forall|i: int|
                0 <= i < e ==> #[trigger] runs@[i] == (RunRow {
                    benchmark_index: i as usize,
                    mean_bits: rs[i].mean_bits,
                    stddev_bits: rs[i].stddev_bits,
                    median_bits: rs[i].median_bits,
                    user_bits: rs[i].user_bits,
                    system_bits: rs[i].system_bits,
                    min_bits: rs[i].min_bits,
                    max_bits: rs[i].max_bits,
                }),
            measurements@ == all_rows(rs, e as int),
            forall|i: int|
                0 <= i < rs.len() ==> entry_count(#[trigger] rs[i]) <= 0x7fff_ffff,
        decreases n - e,
    {
        let entry = &doc.results[e];
        benchmarks.push(
            BenchmarkRow {
                name: bench_name.to_owned(),
                command: entry.command.clone(),
                pull_request_number,
                run_id,
            },
        );
        runs.push(
            RunRow {
                benchmark_index: e,
                mean_bits: entry.mean_bits,
                stddev_bits: entry.stddev_bits,
                median_bits: entry.median_bits,
                user_bits: entry.user_bits,
                system_bits: entry.system_bits,
                min_bits: entry.min_bits,
                max_bits: entry.max_bits,
            },
        );
        let count = if entry.times_bits.len() <= entry.exit_codes.len() {
            entry.times_bits.len()
        } else {
            entry.exit_codes.len()
        };
        proof {
            assert(count == entry_count(rs[e as int]));
        }
        let ghost before = measurements@;
        let mut k: usize = 0;
        proof {
            assert(entry_rows(rs[e as int], e as int).subrange(0, 0) =~= Seq::<
                MeasurementRow,
            >::empty());
            assert(before + Seq::<MeasurementRow>::empty() =~= before);
        }
        while k < count
            invariant
                rs == doc.results@,
                e < rs.len(),
                entry == rs[e as int],
                count == entry_count(rs[e as int]),
                count <= 0x7fff_ffff,
                k <= count,
                count <= entry.times_bits@.len(),
                count <= entry.exit_codes@.len(),
                measurements@ == before + entry_rows(rs[e as int], e as int).subrange(
                    0,
                    k as int,
                ),
            decreases count - k,
        {
            measurements.push(
                MeasurementRow {
                    run_index: e,
                    time_bits: entry.times_bits[k],
                    exit_code: entry.exit_codes[k],
                    measurement_order: k as i32,
                },
            );
            proof {
                assert(entry_rows(rs[e as int], e as int)[k as int] == (MeasurementRow {
                    run_index: e as usize,
                    time_bits: rs[e as int].times_bits@[k as int],
                    exit_code: rs[e as int].exit_codes@[k as int],
                    measurement_order: k as i32,
                }));
                assert(entry_rows(rs[e as int], e as int).subrange(0, k + 1) =~= entry_rows(
                    rs[e as int],
                    e as int,
                ).subrange(0, k as int).push(entry_rows(rs[e as int], e as int)[k as int]));
                assert(measurements@ =~= before + entry_rows(rs[e as int], e as int).subrange(
                    0,
                    k + 1,
                ));
            }
            k = k + 1;
        }
        proof {
            assert(entry_rows(rs[e as int], e as int).subrange(0, count as int) =~= entry_rows(
                rs[e as int],
                e as int,
            ));
            assert(measurements@ =~= all_rows(rs, e + 1));
        }
        e = e + 1;
    }
    proof {
        lemma_all_rows_len(rs, n as int);
    }
    IngestionPlan { benchmarks, runs, measurements }
}

} // verus!
