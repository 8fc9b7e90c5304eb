//! Configuration data: the application's directories and database
//! coordinates, and the benchmark definitions one invocation runs.

use vstd::prelude::*;
use crate::options::OptionMap;
use crate::strutil::dec_digits;
use crate::strutil::u64_to_string;

verus! {

/// Where the relational store lives and how to authenticate against it.
#[derive(Debug)]
pub struct DatabaseConfig {
    pub host: String,
    pub port: u16,
    pub database: String,
    pub user: String,
    pub password: String,
}

impl DatabaseConfig {
    /// The connection URL the database driver takes.
    pub open spec fn connection_string_spec(&self) -> Seq<char> {
        "postgres://"@ + self.user@ + seq![':'] + self.password@ + seq!['@'] + self.host@
            + seq![':'] + dec_digits(self.port as nat) + seq!['/'] + self.database@
    }

    /// The connection URL: user, password, host, port and database name
    /// in the driver's grammar.
    pub fn connection_string(&self) -> (r: String)
        ensures
            r@ == self.connection_string_spec(),
    {
        let mut r = "postgres://".to_owned();
        r.append(self.user.as_str());
        r.append(":");
        r.append(self.password.as_str());
        r.append("@");
        r.append(self.host.as_str());
        r.append(":");
        let port = u64_to_string(self.port as u64);
        r.append(port.as_str());
        r.append("/");
        r.append(self.database.as_str());
        proof {
            reveal_strlit(":");
            reveal_strlit("@");
            reveal_strlit("/");
            assert(r@ =~= self.connection_string_spec());
        }
        r
    }
}

/// The application's own settings: its working directories and the
/// database it persists to.
#[derive(Debug)]
pub struct AppConfig {
    /// The application's home directory.
    pub home_dir: String,
    /// Where built binaries are placed, keyed by revision.
    pub bin_dir: String,
    /// The relational store.
    pub database: DatabaseConfig,
}

/// Settings shared by every benchmark of an invocation.
#[derive(Debug)]
pub struct BenchmarkGlobalConfig {
    /// Tool options every benchmark starts from.
    pub hyperfine: Option<OptionMap>,
    /// A command prepended to every rendered command string.
    pub wrapper: Option<String>,
    /// The source workspace that revisions are built from.
    pub source: String,
    /// The revisions to build and benchmark, as the user wrote them.
    pub commits: Vec<String>,
    /// The scratch data directory handed to the benchmarked binary.
    pub tmp_data_dir: String,
    /// The host label recorded with results.
    pub host: String,
}

/// One benchmark definition.
#[derive(Debug)]
pub struct SingleConfig {
    /// The benchmark's name, unique within the configuration.
    pub name: String,
    /// Extra environment variables for the benchmarked commands.
    pub env: Option<Vec<(String, String)>>,
    /// The network profile the benchmark targets.
    pub network: String,
    /// An address the benchmarked binary connects to, if any.
    pub connect: Option<String>,
    /// Tool options of this benchmark; they win over the global ones.
    pub hyperfine: OptionMap,
}

/// Everything one invocation runs: the shared settings, the benchmark
/// definitions in order, and the run identifier grouping the results.
#[derive(Debug)]
pub struct BenchmarkConfig {
    pub global: BenchmarkGlobalConfig,
    pub benchmarks: Vec<SingleConfig>,
    pub run_id: i64,
}

} // verus!
