//! Sources known to the compiler, and counters of the time each phase took.
use vstd::prelude::*;

use crate::problem::text::{chars_to_string, decimal, push_decimal, push_decimal_u128, push_str_chars};

verus! {

/// Declarations of the built-in types, compiled before any other source.
pub const FAKE_BUILTIN_SOURCE: &'static str =
    "\nDataType Auto;\nDataType Bool;\nDataType Int;\nDataType Float;\nDataType Void;\n";

/// The name under which the built-in declarations are known.
pub const BUILTIN_SOURCE_NAME: &'static str = "(internal code) builtins";

/// Time spent in one phase of the compiler, in milliseconds, and how often
/// it ran.
#[derive(Clone, Copy, Debug)]
pub struct PerformanceCounter {
    pub time: u128,
    pub num_invocations: u32,
}

impl PerformanceCounter {
    pub fn new() -> (r: Self)
        ensures
            r.time == 0,
            r.num_invocations == 0,
    {
        PerformanceCounter { time: 0, num_invocations: 0 }
    }

    /// Counts one more run of the phase, which took `millis` milliseconds.
    pub fn record(&mut self, millis: u128)
        requires
            old(self).time + millis <= u128::MAX,
            old(self).num_invocations < u32::MAX,
        ensures
            final(self).time == old(self).time + millis,
            final(self).num_invocations == old(self).num_invocations + 1,
    {
        self.time = self.time + millis;
        self.num_invocations = self.num_invocations + 1;
    }
}

/// How a counter is shown: the milliseconds, then the number of runs.
pub open spec fn counter_text(c: PerformanceCounter) -> Seq<char> {
    decimal(c.time as nat) + "ms ("@ + decimal(c.num_invocations as nat) + " invocations)"@
}

impl PerformanceCounter {
    /// The counter as shown to users, such as `12ms (3 invocations)`.
    pub fn describe(&self) -> (r: String)
        ensures
            r@ == counter_text(*self),
    {
        let mut out: Vec<char> = Vec::new();
        push_decimal_u128(&mut out, self.time);
        push_str_chars(&mut out, "ms (");
        push_decimal(&mut out, self.num_invocations as usize);
        push_str_chars(&mut out, " invocations)");
        chars_to_string(&out)
    }
}

/// One counter per phase.
#[derive(Clone, Copy, Debug)]
pub struct PerformanceCounters {
    pub ast: PerformanceCounter,
    pub vague: PerformanceCounter,
    pub resolved: PerformanceCounter,
    pub trivial: PerformanceCounter,
    pub llvmir: PerformanceCounter,
}

impl PerformanceCounters {
    pub fn new() -> (r: Self)
        ensures
            r.ast.time == 0 && r.ast.num_invocations == 0,
            r.vague.time == 0 && r.vague.num_invocations == 0,
            r.resolved.time == 0 && r.resolved.num_invocations == 0,
            r.trivial.time == 0 && r.trivial.num_invocations == 0,
            r.llvmir.time == 0 && r.llvmir.num_invocations == 0,
    {
        PerformanceCounters {
            ast: PerformanceCounter::new(),
            vague: PerformanceCounter::new(),
            resolved: PerformanceCounter::new(),
            trivial: PerformanceCounter::new(),
            llvmir: PerformanceCounter::new(),
        }
    }
}

/// How the counters are shown: a heading, then one line per phase.
pub open spec fn counters_text(c: PerformanceCounters) -> Seq<char> {
    "          Performance\n     ast: "@ + counter_text(c.ast) + "\n   vague: "@ + counter_text(c.vague)
        + "\nresolved: "@ + counter_text(c.resolved) + "\n trivial: "@ + counter_text(c.trivial)
        + "\n  llvmir: "@ + counter_text(c.llvmir)
}

impl PerformanceCounters {
    /// The counters as shown to users, one phase per line.
    pub fn describe(&self) -> (r: String)
        ensures
            r@ == counters_text(*self),
    {
        let mut out: Vec<char> = Vec::new();
        push_str_chars(&mut out, "          Performance\n     ast: ");
        push_str_chars(&mut out, self.ast.describe().as_str());
        push_str_chars(&mut out, "\n   vague: ");
        push_str_chars(&mut out, self.vague.describe().as_str());
        push_str_chars(&mut out, "\nresolved: ");
        push_str_chars(&mut out, self.resolved.describe().as_str());
        push_str_chars(&mut out, "\n trivial: ");
        push_str_chars(&mut out, self.trivial.describe().as_str());
        push_str_chars(&mut out, "\n  llvmir: ");
        push_str_chars(&mut out, self.llvmir.describe().as_str());
        chars_to_string(&out)
    }
}

/// The last index in `sources` whose name is `name`.
pub open spec fn last_named(sources: Seq<(String, String)>, name: Seq<char>) -> Option<int>
    decreases sources.len(),
{
    if sources.len() == 0 {
        None
    } else if sources.last().0@ == name {
        Some(sources.len() - 1)
    } else {
        last_named(sources.drop_last(), name)
    }
}

/// The sources to compile, by name, and how long each phase took.
pub struct Compiler {
    sources: Vec<(String, String)>,
    performance_counters: PerformanceCounters,
    error_width: usize,
}

impl Compiler {
    pub closed spec fn spec_sources(&self) -> Seq<(String, String)> {
        self.sources@
    }

    pub closed spec fn spec_error_width(&self) -> usize {
        self.error_width
    }

    pub closed spec fn spec_performance_counters(&self) -> PerformanceCounters {
        self.performance_counters
    }

    /// A compiler that knows only the built-in declarations, and formats
    /// errors 80 columns wide.
    pub fn new() -> (r: Self)
        ensures
            r.spec_sources().len() == 1,
            r.spec_sources()[0].0@ == BUILTIN_SOURCE_NAME@,
            r.spec_sources()[0].1@ == FAKE_BUILTIN_SOURCE@,
            r.spec_error_width() == 80,
            r.spec_performance_counters().ast.num_invocations == 0,
            r.spec_performance_counters().ast.time == 0,
            r.spec_performance_counters().vague.num_invocations == 0,
            r.spec_performance_counters().vague.time == 0,
            r.spec_performance_counters().resolved.num_invocations == 0,
            r.spec_performance_counters().resolved.time == 0,
            r.spec_performance_counters().trivial.num_invocations == 0,
            r.spec_performance_counters().trivial.time == 0,
            r.spec_performance_counters().llvmir.num_invocations == 0,
            r.spec_performance_counters().llvmir.time == 0,
    {
        let mut new = Compiler {
            sources: Vec::new(),
            performance_counters: PerformanceCounters::new(),
            error_width: 80,
        };
        new.add_source(BUILTIN_SOURCE_NAME.to_owned(), FAKE_BUILTIN_SOURCE.to_owned());
        new
    }

    pub fn set_error_width(&mut self, width: usize)
        ensures
            final(self).spec_error_width() == width,
            final(self).spec_sources() == old(self).spec_sources(),
            final(self).spec_performance_counters() == old(self).spec_performance_counters(),
    {
        self.error_width = width;
    }

    /// Adds a source; a source added later under the same name hides the
    /// earlier one.
    pub fn add_source(&mut self, name: String, content: String)
        ensures
            final(self).spec_sources() == old(self).spec_sources().push((name, content)),
            final(self).spec_error_width() == old(self).spec_error_width(),
            final(self).spec_performance_counters() == old(self).spec_performance_counters(),
    {
        self.sources.push((name, content));
    }

    pub fn borrow_performance_counters(&self) -> (r: &PerformanceCounters)
        ensures
            *r == self.spec_performance_counters(),
    {
        &self.performance_counters
    }

    /// The index of the source last added under `name`.
    pub fn find_source(&self, name: &str) -> (r: Option<usize>)
        ensures
            r matches Some(i) ==> last_named(self.spec_sources(), name@) == Some(i as int),
            r is None ==> last_named(self.spec_sources(), name@) is None,
    {
        let key = name.to_owned();
        let mut i = self.sources.len();
        assert(self.sources@.take(i as int) =~= self.sources@);
        while i > 0
            invariant
                i <= self.sources@.len(),
                key@ == name@,
                last_named(self.sources@, name@) == last_named(self.sources@.take(i as int), name@),
            decreases i,
        {
            assert(self.sources@.take(i as int).drop_last() =~= self.sources@.take(i - 1));
            if self.sources[i - 1].0 == key {
                return Some(i - 1);
            }
            i = i - 1;
        }
        None
    }

    pub fn borrow_source(&self, index: usize) -> (r: &(String, String))
        requires
            index < self.spec_sources().len(),
        ensures
            *r == self.spec_sources()[index as int],
    {
        &self.sources[index]
    }
}

/// Adding a source makes it the one its name finds, whatever was added
/// before under that name.
pub proof fn lemma_added_source_is_found(sources: Seq<(String, String)>, name: String, content: String)
    ensures
        last_named(sources.push((name, content)), name@) == Some(sources.len() as int),
{
    assert(sources.push((name, content)).last() == (name, content));
}

} // verus!
