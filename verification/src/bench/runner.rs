//! What a benchmark run does: which phases run, on how many blocks, and
//! with which engine configuration.

use vstd::prelude::*;
use vstd::string::StrSliceExecFns;

use crate::engine::config::{CacheConfig, DEFAULT_FLUSH_INTERVAL_SECS};
use crate::flush::scheduler::Fraction;
use crate::text::joined;

verus! {

/// Benchmark mode selector.
#[derive(Debug, Clone, Copy, PartialEq, Eq, Structural)]
pub enum BenchMode {
    /// Sequential read/write.
    Sequential,
    /// Random read/write.
    Random,
    /// Both sequential and random.
    All,
}

/// `c` with ASCII upper-case letters made lower-case.
pub open spec fn ascii_lower(c: char) -> char {
    if 'A' <= c <= 'Z' { ((c as u32) + 32) as char } else { c }
}

/// `s` equals `word` when ASCII case is ignored.
pub open spec fn matches_ignoring_case(s: Seq<char>, word: Seq<char>) -> bool {
    s.len() == word.len() && forall|i: int| 0 <= i < s.len() ==> #[trigger] ascii_lower(s[i]) == word[i]
}

/// The mode that a name selects, ignoring ASCII case.
pub open spec fn mode_named(s: Seq<char>) -> Option<BenchMode> {
    if matches_ignoring_case(s, "sequential"@) || matches_ignoring_case(s, "seq"@) {
        Some(BenchMode::Sequential)
    } else if matches_ignoring_case(s, "random"@) || matches_ignoring_case(s, "rand"@) {
        Some(BenchMode::Random)
    } else if matches_ignoring_case(s, "all"@) {
        Some(BenchMode::All)
    } else {
        None
    }
}

/// `s` equals the lower-case ASCII `word` when ASCII case is ignored.
fn eq_ignoring_case(s: &str, word: &str) -> (b: bool)
    ensures
        b == matches_ignoring_case(s@, word@),
{
    let n = s.unicode_len();
    if n != word.unicode_len() {
        return false;
    }
    let mut i: usize = 0;
    while i < n
        invariant
            n == s@.len(),
            n == word@.len(),
            i <= n,
            forall|j: int| 0 <= j < i ==> #[trigger] ascii_lower(s@[j]) == word@[j],
        decreases n - i,
    {
        let c = s.get_char(i);
        let lower = if 'A' <= c && c <= 'Z' { ((c as u32) + 32) as u8 as char } else { c };
        assert(lower == ascii_lower(s@[i as int])) by {
            if 'A' <= c && c <= 'Z' {
                assert(((c as u32) + 32) as u8 as char == ((c as u32) + 32) as char);
            }
        }
        if lower != word.get_char(i) {
            return false;
        }
        i = i + 1;
    }
    true
}

impl BenchMode {
    /// The mode named by `s` (`sequential`/`seq`, `random`/`rand`, `all`,
    /// in any ASCII case), or the message `unknown bench mode: s`.
    pub fn parse(s: &str) -> (r: Result<BenchMode, String>)
        ensures
            mode_named(s@) matches Some(m) ==> r == Ok::<BenchMode, String>(m),
            mode_named(s@) is None ==> (r matches Err(msg) && msg@ == "unknown bench mode: "@ + s@),
    {
        if eq_ignoring_case(s, "sequential") || eq_ignoring_case(s, "seq") {
            Ok(BenchMode::Sequential)
        } else if eq_ignoring_case(s, "random") || eq_ignoring_case(s, "rand") {
            Ok(BenchMode::Random)
        } else if eq_ignoring_case(s, "all") {
            Ok(BenchMode::All)
        } else {
            Err(joined("unknown bench mode: ", s))
        }
    }
}

impl std::str::FromStr for BenchMode {
    type Err = String;

    fn from_str(s: &str) -> (r: Result<BenchMode, String>)
        ensures
            mode_named(s@) matches Some(m) ==> r == Ok::<BenchMode, String>(m),
            mode_named(s@) is None ==> (r matches Err(msg) && msg@ == "unknown bench mode: "@ + s@),
    {
        BenchMode::parse(s)
    }
}

/// Configuration for a benchmark run.
#[derive(Debug, Clone)]
pub struct BenchConfig {
    /// Path to the block device.
    pub device_path: String,
    /// Benchmark mode (sequential, random, or all).
    pub mode: BenchMode,
    /// Number of blocks / operations per benchmark.
    pub block_count: usize,
    /// Cache size in MiB.
    pub cache_size_mb: usize,
    /// Whether to run write benchmarks.
    pub include_writes: bool,
}

/// One comparison of a benchmark run: direct I/O against the cache.
#[derive(Debug, Clone, Copy, PartialEq, Eq, Structural)]
pub enum BenchPhase {
    /// Sequential reads, direct and through a cold cache.
    SequentialRead,
    /// Sequential reads through the now warm cache.
    SequentialReadWarm,
    /// Sequential writes, direct and through the cache.
    SequentialWrite,
    /// Random reads, direct and through the cache.
    RandomRead,
    /// The same random reads again, through the warm cache.
    RandomReadWarm,
    /// Random writes, direct and through the cache.
    RandomWrite,
}

/// The block size of every benchmark.
pub const BENCH_BLOCK_SIZE: usize = 4096;

/// What a benchmark run does.
#[derive(Debug, Clone)]
pub struct BenchPlan {
    /// Blocks or operations per phase: the requested count, at most the
    /// device's block count.
    pub effective_count: usize,
    /// The configuration of the engine for the cached runs.
    pub engine_config: CacheConfig,
    /// The phases, in order.
    pub phases: Vec<BenchPhase>,
}

/// The phases that a mode runs, in order; the write phases only when writes
/// are included.
pub open spec fn planned_phases(mode: BenchMode, writes: bool) -> Seq<BenchPhase> {
    let seq_part = if mode == BenchMode::Sequential || mode == BenchMode::All {
        if writes {
            seq![BenchPhase::SequentialRead, BenchPhase::SequentialReadWarm, BenchPhase::SequentialWrite]
        } else {
            seq![BenchPhase::SequentialRead, BenchPhase::SequentialReadWarm]
        }
    } else {
        Seq::empty()
    };
    let rnd_part = if mode == BenchMode::Random || mode == BenchMode::All {
        if writes {
            seq![BenchPhase::RandomRead, BenchPhase::RandomReadWarm, BenchPhase::RandomWrite]
        } else {
            seq![BenchPhase::RandomRead, BenchPhase::RandomReadWarm]
        }
    } else {
        Seq::empty()
    };
    seq_part + rnd_part
}

/// The plan of a benchmark run on a device of `max_lba` blocks of
/// [`BENCH_BLOCK_SIZE`] bytes.
pub fn plan_benchmarks(config: &BenchConfig, max_lba: u64) -> (p: BenchPlan)
    ensures
        p.effective_count == (if config.block_count <= max_lba as usize { config.block_count } else { max_lba as usize }),
        p.engine_config.device_path@ == config.device_path@,
        p.engine_config.cache_size_mb == config.cache_size_mb,
        p.engine_config.block_size == BENCH_BLOCK_SIZE,
        p.engine_config.flush_interval_secs == DEFAULT_FLUSH_INTERVAL_SECS,
        p.engine_config.dirty_watermark == (Fraction { num: 3, den: 4 }),
        p.engine_config.read_only == !config.include_writes,
        p.phases@ == planned_phases(config.mode, config.include_writes),
{
    #[verifier::truncate]
    let device_blocks = max_lba as usize;
    let effective_count = if config.block_count <= device_blocks { config.block_count } else { device_blocks };
    let mut engine_config = CacheConfig::new(config.device_path.as_str());
    engine_config.cache_size_mb = config.cache_size_mb;
    engine_config.read_only = !config.include_writes;
    let mut phases: Vec<BenchPhase> = Vec::new();
    if config.mode == BenchMode::Sequential || config.mode == BenchMode::All {
        phases.push(BenchPhase::SequentialRead);
        phases.push(BenchPhase::SequentialReadWarm);
        if config.include_writes {
            phases.push(BenchPhase::SequentialWrite);
        }
    }
    if config.mode == BenchMode::Random || config.mode == BenchMode::All {
        phases.push(BenchPhase::RandomRead);
        phases.push(BenchPhase::RandomReadWarm);
        if config.include_writes {
            phases.push(BenchPhase::RandomWrite);
        }
    }
    proof {
        assert(phases@ =~= planned_phases(config.mode, config.include_writes));
    }
    BenchPlan { effective_count, engine_config, phases }
}

/// Which phases a run plans. The sequential phases run for the
/// sequential and the combined mode, the random phases for the random and
/// the combined mode; each group reads cold, then warm, and writes exactly
/// when writes are included, whichever other group runs. The sequential
/// group comes first.
pub proof fn law_planned_phases(mode: BenchMode, writes: bool)
    ensures
        planned_phases(mode, writes).contains(BenchPhase::SequentialRead) <==> (mode == BenchMode::Sequential
            || mode == BenchMode::All),
        planned_phases(mode, writes).contains(BenchPhase::SequentialReadWarm) <==> (mode
            == BenchMode::Sequential || mode == BenchMode::All),
        planned_phases(mode, writes).contains(BenchPhase::SequentialWrite) <==> (writes && (mode
            == BenchMode::Sequential || mode == BenchMode::All)),
        planned_phases(mode, writes).contains(BenchPhase::RandomRead) <==> (mode == BenchMode::Random
            || mode == BenchMode::All),
        planned_phases(mode, writes).contains(BenchPhase::RandomReadWarm) <==> (mode == BenchMode::Random
            || mode == BenchMode::All),
        planned_phases(mode, writes).contains(BenchPhase::RandomWrite) <==> (writes && (mode
            == BenchMode::Random || mode == BenchMode::All)),
        planned_phases(BenchMode::All, writes) == planned_phases(BenchMode::Sequential, writes)
            + planned_phases(BenchMode::Random, writes),
        planned_phases(mode, writes).no_duplicates(),
{
    let p = planned_phases(mode, writes);
    assert(planned_phases(BenchMode::All, writes) =~= planned_phases(BenchMode::Sequential, writes)
        + planned_phases(BenchMode::Random, writes));
    if mode == BenchMode::Sequential || mode == BenchMode::All {
        assert(p[0] == BenchPhase::SequentialRead);
        assert(p[1] == BenchPhase::SequentialReadWarm);
        if writes {
            assert(p[2] == BenchPhase::SequentialWrite);
        }
    }
    if mode == BenchMode::Random {
        assert(p[0] == BenchPhase::RandomRead);
        assert(p[1] == BenchPhase::RandomReadWarm);
        if writes {
            assert(p[2] == BenchPhase::RandomWrite);
        }
    }
    if mode == BenchMode::All {
        let k: int = if writes { 3 } else { 2 };
        assert(p[k] == BenchPhase::RandomRead);
        assert(p[k + 1] == BenchPhase::RandomReadWarm);
        if writes {
            assert(p[k + 2] == BenchPhase::RandomWrite);
        }
    }
}

} // verus!
