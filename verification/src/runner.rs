//! Decisions of the benchmark runner: choosing the run identifier,
//! selecting a benchmark by name, and the snapshot file a benchmark's
//! network requires.

use vstd::prelude::*;
use rand::Rng;
use crate::config::SingleConfig;
use crate::snapshot::Network;
use crate::snapshot::SnapshotInfo;
use crate::strutil::str_chars;

verus! {

/// Relies on rand's `Rng::random_range`, which draws a value of the given
/// half-open range; nothing more is known of which value comes back.
#[verifier::external_body]
fn random_run_id() -> (r: i32)
    ensures
        100_000_000 <= r < 999_999_999,
{
    let mut rng = rand::rng();
    rng.random_range(100_000_000..999_999_999)
}

/// The run identifier an invocation uses: the caller's, or a freshly
/// drawn nine-digit one when the caller supplied none.
pub fn choose_run_id(requested: Option<i32>) -> (r: i32)
    ensures
        requested matches Some(v) ==> r == v,
        requested is None ==> 100_000_000 <= r < 999_999_999,
{
    match requested {
        Some(v) => v,
        None => random_run_id(),
    }
}

/// The position of the first benchmark with the given name, if any.
pub fn find_benchmark(benchmarks: &Vec<SingleConfig>, name: &str) -> (r: Option<usize>)
    ensures
        r matches Some(i) ==> i < benchmarks@.len() && benchmarks@[i as int].name@ == name@
            && forall|j: int| 0 <= j < i ==> benchmarks@[j].name@ != name@,
        r is None ==> forall|j: int|
            0 <= j < benchmarks@.len() ==> benchmarks@[j].name@ != name@,
{
    let n = benchmarks.len();
    let mut i: usize = 0;
    while i < n
        invariant
            n == benchmarks@.len(),
            i <= n,
            forall|j: int| 0 <= j < i ==> benchmarks@[j].name@ != name@,
        decreases n - i,
    {
        if crate::strutil::str_eq(benchmarks[i].name.as_str(), name) {
            return Some(i);
        }
        i = i + 1;
    }
    None
}

/// An ASCII capital letter folded to its small form; any other character
/// unchanged.
pub open spec fn ascii_lower(c: char) -> char {
    if 'A' <= c && c <= 'Z' {
        (((c as u8) + 32) as char)
    } else {
        c
    }
}

/// Character sequences equal once ASCII capitals are folded.
pub open spec fn eq_ignore_ascii(a: Seq<char>, b: Seq<char>) -> bool {
    a.len() == b.len() && forall|i: int|
        0 <= i < a.len() ==> ascii_lower(#[trigger] a[i]) == ascii_lower(b[i])
}

fn chars_eq_ignore_ascii(a: &Vec<char>, b: &str) -> (r: bool)
    ensures
        r == eq_ignore_ascii(a@, b@),
{
    let bv = str_chars(b);
    let n = a.len();
    if n != bv.len() {
        return false;
    }
    let mut i: usize = 0;
    while i < n
        invariant
            bv@ == b@,
            n == a@.len(),
            n == b@.len(),
            i <= n,
            forall|j: int| 0 <= j < i ==> ascii_lower(a@[j]) == ascii_lower(b@[j]),
        decreases n - i,
    {
        let ca = a[i];
        let cb = bv[i];
        let la = if 'A' <= ca && ca <= 'Z' {
            ((ca as u8) + 32) as char
        } else {
            ca
        };
        let lb = if 'A' <= cb && cb <= 'Z' {
            ((cb as u8) + 32) as char
        } else {
            cb
        };
        if la != lb {
            return false;
        }
        i = i + 1;
    }
    true
}

/// The network a benchmark names, read without regard to ASCII case;
/// nothing for an unknown name.
pub fn network_from_str(s: &str) -> (r: Option<Network>)
    ensures
        eq_ignore_ascii(s@, "mainnet"@) ==> r == Some(Network::Mainnet),
        !eq_ignore_ascii(s@, "mainnet"@) && eq_ignore_ascii(s@, "signet"@) ==> r == Some(
            Network::Signet,
        ),
        !eq_ignore_ascii(s@, "mainnet"@) && !eq_ignore_ascii(s@, "signet"@) ==> r is None,
{
    let sv = str_chars(s);
    if chars_eq_ignore_ascii(&sv, "mainnet") {
        Some(Network::Mainnet)
    } else if chars_eq_ignore_ascii(&sv, "signet") {
        Some(Network::Signet)
    } else {
        None
    }
}

/// The benchmark named an unknown network.
#[derive(Debug, PartialEq, Eq, Structural)]
pub struct InvalidNetworkError;

/// The path of the snapshot file a benchmark's network requires, under
/// the snapshot directory; an error when the network name is unknown.
pub fn required_snapshot_path(network: &str, snapshot_dir: &str) -> (r: Result<
    String,
    InvalidNetworkError,
>)
    ensures
        !eq_ignore_ascii(network@, "mainnet"@) && !eq_ignore_ascii(network@, "signet"@) ==> (r
            matches Err(e) && e == InvalidNetworkError),
        eq_ignore_ascii(network@, "mainnet"@) ==> (r matches Ok(p) && p@ == snapshot_dir@
            + seq!['/'] + "mainnet-840000.dat"@),
        !eq_ignore_ascii(network@, "mainnet"@) && eq_ignore_ascii(network@, "signet"@) ==> (r
            matches Ok(p) && p@ == snapshot_dir@ + seq!['/'] + "signet-160000.dat"@),
{
    let net = match network_from_str(network) {
        Some(n) => n,
        None => {
            return Err(InvalidNetworkError);
        },
    };
    let info = match SnapshotInfo::for_network(&net) {
        Some(info) => info,
        None => {
            return Err(InvalidNetworkError);
        },
    };
    let mut p = snapshot_dir.to_owned();
    p.append("/");
    p.append(info.filename.as_str());
    proof {
        reveal_strlit("/");
        assert(p@ =~= snapshot_dir@ + seq!['/'] + info.filename@);
    }
    Ok(p)
}

} // verus!
