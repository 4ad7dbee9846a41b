//! Counting and timing what an analysis does.

use crate::text;
use crate::text::{decimal, format_number, grouped, right_aligned, Text};
use std::time::Instant;
use vstd::prelude::*;

verus! {

/// What was counted: numbers of calls and the time they took, in nanoseconds. The counters start
/// again at zero when they are full.
#[derive(Debug, PartialEq, Eq)]
pub struct ProfileStats {
    pub resolution_calls: usize,
    pub resolution_cache_hits: usize,
    pub resolution_time_ns: u64,
    pub reference_lookups: usize,
    pub local_reference_calls: usize,
    pub local_reference_time_ns: u64,
    pub reexport_checks: usize,
    pub reexport_time_ns: u64,
    pub symbol_extractions: usize,
    pub symbol_extraction_time_ns: u64,
}

/// Counts what an analysis does, if it is enabled.
pub struct Profiler {
    enabled: bool,
    stats: ProfileStats,
}

/// Nothing is counted yet.
pub open spec fn no_stats() -> ProfileStats {
    ProfileStats {
        resolution_calls: 0,
        resolution_cache_hits: 0,
        resolution_time_ns: 0,
        reference_lookups: 0,
        local_reference_calls: 0,
        local_reference_time_ns: 0,
        reexport_checks: 0,
        reexport_time_ns: 0,
        symbol_extractions: 0,
        symbol_extraction_time_ns: 0,
    }
}

impl Profiler {
    /// Whether it counts.
    pub closed spec fn enabled(&self) -> bool {
        self.enabled
    }

    /// What it counted.
    pub closed spec fn counted(&self) -> ProfileStats {
        self.stats
    }

    /// A profiler that has counted nothing.
    pub fn new(enabled: bool) -> (r: Self)
        ensures
            r.enabled() == enabled,
            r.counted() == no_stats(),
    {
        Profiler {
            enabled,
            stats: ProfileStats {
                resolution_calls: 0,
                resolution_cache_hits: 0,
                resolution_time_ns: 0,
                reference_lookups: 0,
                local_reference_calls: 0,
                local_reference_time_ns: 0,
                reexport_checks: 0,
                reexport_time_ns: 0,
                symbol_extractions: 0,
                symbol_extraction_time_ns: 0,
            },
        }
    }

    /// Whether it counts.
    pub fn is_enabled(&self) -> (r: bool)
        ensures
            r == self.enabled(),
    {
        self.enabled
    }

    /// The time at which something begins that is to be measured, if anything is.
    pub(crate) fn start(&self) -> (r: Option<Instant>)
        ensures
            r is Some <==> self.enabled(),
    {
        if self.enabled {
            Some(clock())
        } else {
            None
        }
    }

    /// Counts the resolution of an import.
    pub fn record_resolution(&mut self, cache_hit: bool, duration_ns: u64)
        ensures
            final(self).enabled() == old(self).enabled(),
            final(self).counted() == if old(self).enabled() {
                ProfileStats {
                    resolution_calls: old(self).counted().resolution_calls.wrapping_add(1),
                    resolution_cache_hits: if cache_hit {
                        old(self).counted().resolution_cache_hits.wrapping_add(1)
                    } else {
                        old(self).counted().resolution_cache_hits
                    },
                    resolution_time_ns: old(self).counted().resolution_time_ns.wrapping_add(
                        duration_ns,
                    ),
                    ..old(self).counted()
                }
            } else {
                old(self).counted()
            },
    {
        if !self.enabled {
            return;
        }
        self.stats.resolution_calls = self.stats.resolution_calls.wrapping_add(1);
        if cache_hit {
            self.stats.resolution_cache_hits = self.stats.resolution_cache_hits.wrapping_add(1);
        }
        self.stats.resolution_time_ns = self.stats.resolution_time_ns.wrapping_add(duration_ns);
    }

    /// Counts the lookup of a reference.
    pub fn record_reference_lookup(&mut self)
        ensures
            final(self).enabled() == old(self).enabled(),
            final(self).counted() == if old(self).enabled() {
                ProfileStats {
                    reference_lookups: old(self).counted().reference_lookups.wrapping_add(1),
                    ..old(self).counted()
                }
            } else {
                old(self).counted()
            },
    {
        if !self.enabled {
            return;
        }
        self.stats.reference_lookups = self.stats.reference_lookups.wrapping_add(1);
    }

    /// Counts a search for references inside a file.
    pub fn record_local_reference(&mut self, duration_ns: u64)
        ensures
            final(self).enabled() == old(self).enabled(),
            final(self).counted() == if old(self).enabled() {
                ProfileStats {
                    local_reference_calls: old(self).counted().local_reference_calls.wrapping_add(
                        1,
                    ),
                    local_reference_time_ns: old(
                        self,
                    ).counted().local_reference_time_ns.wrapping_add(duration_ns),
                    ..old(self).counted()
                }
            } else {
                old(self).counted()
            },
    {
        if !self.enabled {
            return;
        }
        self.stats.local_reference_calls = self.stats.local_reference_calls.wrapping_add(1);
        self.stats.local_reference_time_ns = self.stats.local_reference_time_ns.wrapping_add(
            duration_ns,
        );
    }

    /// Counts a search for files that re-export.
    pub fn record_reexport_check(&mut self, duration_ns: u64)
        ensures
            final(self).enabled() == old(self).enabled(),
            final(self).counted() == if old(self).enabled() {
                ProfileStats {
                    reexport_checks: old(self).counted().reexport_checks.wrapping_add(1),
                    reexport_time_ns: old(self).counted().reexport_time_ns.wrapping_add(
                        duration_ns,
                    ),
                    ..old(self).counted()
                }
            } else {
                old(self).counted()
            },
    {
        if !self.enabled {
            return;
        }
        self.stats.reexport_checks = self.stats.reexport_checks.wrapping_add(1);
        self.stats.reexport_time_ns = self.stats.reexport_time_ns.wrapping_add(duration_ns);
    }

    /// Counts the extraction of a symbol.
    pub fn record_symbol_extraction(&mut self, duration_ns: u64)
        ensures
            final(self).enabled() == old(self).enabled(),
            final(self).counted() == if old(self).enabled() {
                ProfileStats {
                    symbol_extractions: old(self).counted().symbol_extractions.wrapping_add(1),
                    symbol_extraction_time_ns: old(
                        self,
                    ).counted().symbol_extraction_time_ns.wrapping_add(duration_ns),
                    ..old(self).counted()
                }
            } else {
                old(self).counted()
            },
    {
        if !self.enabled {
            return;
        }
        self.stats.symbol_extractions = self.stats.symbol_extractions.wrapping_add(1);
        self.stats.symbol_extraction_time_ns = self.stats.symbol_extraction_time_ns.wrapping_add(
            duration_ns,
        );
    }

    /// What it counted.
    pub fn stats(&self) -> (r: &ProfileStats)
        ensures
            *r == self.counted(),
    {
        &self.stats
    }
}

// ---------------------------------------------------------------------------
// The report
// ---------------------------------------------------------------------------

/// A time in whole milliseconds.
pub open spec fn millis(ns: u64) -> u64 {
    ns / 1_000_000
}

/// The time per call in whole microseconds, from a time in milliseconds.
pub open spec fn average(ms: u64, calls: usize) -> Text {
    if calls > 0 {
        grouped(decimal((ms * 1000 / calls as int) as nat))
    } else {
        "0"@
    }
}

/// What the report says of ratios: texts of one decimal, such as ` 12.5`, and two judgements of
/// the hit rate.
#[derive(Debug, PartialEq, Eq)]
pub struct Ratios {
    /// The hit rate in percent, right-aligned in five characters.
    pub hit_rate: String,
    /// The hit rate in percent, as it stands.
    pub hit_rate_plain: String,
    /// The hit rate is below 50 percent.
    pub low: bool,
    /// The hit rate is above 90 percent.
    pub excellent: bool,
    /// The parts of the measured time, in percent, right-aligned in five characters.
    pub resolution: String,
    pub local: String,
    pub reexport: String,
    pub symbol: String,
}

/// A line of the report: a value right-aligned in ten characters between `head` and `tail`.
pub open spec fn row(head: Text, value: Text, tail: Text) -> Text {
    head + right_aligned(value, 10) + tail
}

/// A line of the breakdown.
pub open spec fn share_row(head: Text, ms: u64, percent: Text) -> Text {
    head + right_aligned(decimal(ms as nat), 6) + " ms ("@ + percent + "%)"@
}

/// The lines on resolution.
pub open spec fn resolution_part(s: ProfileStats, r: Ratios) -> Seq<Text> {
    seq![
        "║ Module Resolution:                                        ║"@,
        row(
            "║   Total calls:        "@,
            grouped(decimal(s.resolution_calls as nat)),
            "                         ║"@,
        ),
        row(
            "║   Cache hits:         "@,
            grouped(decimal(s.resolution_cache_hits as nat)),
            " ("@ + r.hit_rate@ + "%)                ║"@,
        ),
        row(
            "║   Time spent:         "@,
            grouped(decimal(millis(s.resolution_time_ns) as nat)),
            " ms                      ║"@,
        ),
        row(
            "║   Avg per call:       "@,
            average(millis(s.resolution_time_ns), s.resolution_calls),
            " μs                      ║"@,
        ),
    ]
}

/// The lines on reference finding.
pub open spec fn reference_part(s: ProfileStats) -> Seq<Text> {
    seq![
        "║ Reference Finding:                                        ║"@,
        row(
            "║   Symbol lookups:     "@,
            grouped(decimal(s.reference_lookups as nat)),
            "                         ║"@,
        ),
        row(
            "║   Local ref calls:    "@,
            grouped(decimal(s.local_reference_calls as nat)),
            "                         ║"@,
        ),
        row(
            "║   Time spent:         "@,
            grouped(decimal(millis(s.local_reference_time_ns) as nat)),
            " ms                      ║"@,
        ),
        row(
            "║   Avg per call:       "@,
            average(millis(s.local_reference_time_ns), s.local_reference_calls),
            " μs                      ║"@,
        ),
    ]
}

/// The lines on re-exports.
pub open spec fn reexport_part(s: ProfileStats) -> Seq<Text> {
    seq![
        "║ Re-export Checking:                                       ║"@,
        row(
            "║   Total checks:       "@,
            grouped(decimal(s.reexport_checks as nat)),
            "                         ║"@,
        ),
        row(
            "║   Time spent:         "@,
            grouped(decimal(millis(s.reexport_time_ns) as nat)),
            " ms                      ║"@,
        ),
        row(
            "║   Avg per check:      "@,
            average(millis(s.reexport_time_ns), s.reexport_checks),
            " μs                      ║"@,
        ),
    ]
}

/// The lines on symbols.
pub open spec fn symbol_part(s: ProfileStats) -> Seq<Text> {
    seq![
        "║ Symbol Extraction:                                        ║"@,
        row(
            "║   Total extractions:  "@,
            grouped(decimal(s.symbol_extractions as nat)),
            "                         ║"@,
        ),
        row(
            "║   Time spent:         "@,
            grouped(decimal(millis(s.symbol_extraction_time_ns) as nat)),
            " ms                      ║"@,
        ),
        row(
            "║   Avg per extract:    "@,
            average(millis(s.symbol_extraction_time_ns), s.symbol_extractions),
            " μs                      ║"@,
        ),
    ]
}

/// Some time was measured: a millisecond in at least one place.
pub open spec fn measured(s: ProfileStats) -> bool {
    millis(s.resolution_time_ns) + millis(s.local_reference_time_ns) + millis(s.reexport_time_ns)
        + millis(s.symbol_extraction_time_ns) > 0
}

/// How the measured time divides; nothing where none was measured.
pub open spec fn breakdown_part(s: ProfileStats, r: Ratios) -> Seq<Text> {
    if measured(s) {
        seq![
            "\n═══════════════════ TIME BREAKDOWN ═══════════════════"@,
            share_row("Resolution:     "@, millis(s.resolution_time_ns), r.resolution@),
            share_row("Local refs:     "@, millis(s.local_reference_time_ns), r.local@),
            share_row("Re-exports:     "@, millis(s.reexport_time_ns), r.reexport@),
            share_row("Symbol extract: "@, millis(s.symbol_extraction_time_ns), r.symbol@),
            "═══════════════════════════════════════════════════════\n"@,
        ]
    } else {
        Seq::empty()
    }
}

/// What the numbers suggest.
pub open spec fn insight_part(s: ProfileStats, r: Ratios) -> Seq<Text> {
    seq!["💡 INSIGHTS:"@] + (if r.low && s.resolution_calls > 100 {
        seq![
            "   ⚠️  Low cache hit rate ("@ + r.hit_rate_plain@
                + "%) - consider pre-resolving imports"@,
        ]
    } else {
        Seq::empty()
    }) + (if r.excellent {
        seq!["   ✅ Excellent cache hit rate ("@ + r.hit_rate_plain@ + "%)"@]
    } else {
        Seq::empty()
    }) + (if millis(s.resolution_time_ns) > millis(s.local_reference_time_ns) {
        seq!["   ⚠️  Resolution is the bottleneck - optimize import resolution"@]
    } else if millis(s.local_reference_time_ns) > millis(s.resolution_time_ns) {
        seq!["   ⚠️  Local reference finding is the bottleneck"@]
    } else {
        Seq::empty()
    }) + seq![""@]
}

/// The line between two parts.
pub open spec fn rule_part() -> Seq<Text> {
    seq!["╠═══════════════════════════════════════════════════════════╣"@]
}

/// The lines of the report.
pub open spec fn report_of(s: ProfileStats, r: Ratios) -> Seq<Text> {
    seq![
        "\n╔═══════════════════════════════════════════════════════════╗"@,
        "║           PERFORMANCE PROFILING REPORT                    ║"@,
    ] + rule_part() + resolution_part(s, r) + rule_part() + reference_part(s) + rule_part()
        + reexport_part(s) + rule_part() + symbol_part(s) + seq![
        "╚═══════════════════════════════════════════════════════════╝"@,
    ] + breakdown_part(s, r) + insight_part(s, r)
}

/// Appends a line that stands as it is.
fn push_line(out: &mut Vec<String>, line: &str)
    ensures
        final(out).deep_view() == old(out).deep_view().push(line@),
{
    let ghost before = out.deep_view();
    out.push(line.to_owned());
    assert(out.deep_view() =~= before.push(line@));
}

/// Appends a line with a value.
fn push_row(out: &mut Vec<String>, head: &str, value: &str, tail: &str)
    ensures
        final(out).deep_view() == old(out).deep_view().push(row(head@, value@, tail@)),
{
    let line = text::cat3(head, text::align_right(value, 10).as_str(), tail);
    push_line(out, line.as_str());
}

/// Appends a line of the breakdown.
fn push_share(out: &mut Vec<String>, head: &str, ms: u64, percent: &str)
    ensures
        final(out).deep_view() == old(out).deep_view().push(share_row(head@, ms, percent@)),
{
    let mut line = text::cat3(
        head,
        text::align_right(text::decimal_of(ms).as_str(), 6).as_str(),
        " ms (",
    );
    line.append(percent);
    line.append("%)");
    push_line(out, line.as_str());
}

/// The time per call.
fn average_text(ms: u64, calls: usize) -> (r: String)
    requires
        ms * 1000 <= u64::MAX,
    ensures
        r@ == average(ms, calls),
{
    if calls > 0 {
        format_number(ms * 1000 / calls as u64)
    } else {
        "0".to_owned()
    }
}

impl Profiler {
    /// The lines of the report; nothing where nothing was counted because the profiler is off. The
    /// ratios are those of the counters.
    #[verifier::rlimit(60)]
    pub fn report(&self, ratios: &Ratios) -> (r: Option<Vec<String>>)
        ensures
            r.deep_view() == if self.enabled() {
                Some(report_of(self.counted(), *ratios))
            } else {
                None
            },
    {
        if !self.enabled {
            return None;
        }
        let s = self.stats();
        let resolution_ms: u64 = s.resolution_time_ns / 1_000_000;
        let local_ms: u64 = s.local_reference_time_ns / 1_000_000;
        let reexport_ms: u64 = s.reexport_time_ns / 1_000_000;
        let symbol_ms: u64 = s.symbol_extraction_time_ns / 1_000_000;
        let rule = "╠═══════════════════════════════════════════════════════════╣";
        let plain_tail = "                         ║";
        let ms_tail = " ms                      ║";
        let us_tail = " μs                      ║";
        let mut out: Vec<String> = Vec::new();
        assert(out.deep_view() =~= Seq::<Text>::empty());
        push_line(&mut out, "\n╔═══════════════════════════════════════════════════════════╗");
        push_line(&mut out, "║           PERFORMANCE PROFILING REPORT                    ║");
        push_line(&mut out, rule);
        push_line(&mut out, "║ Module Resolution:                                        ║");
        push_row(
            &mut out,
            "║   Total calls:        ",
            format_number(s.resolution_calls as u64).as_str(),
            plain_tail,
        );
        push_row(
            &mut out,
            "║   Cache hits:         ",
            format_number(s.resolution_cache_hits as u64).as_str(),
            text::cat3(" (", ratios.hit_rate.as_str(), "%)                ║").as_str(),
        );
        push_row(
            &mut out,
            "║   Time spent:         ",
            format_number(resolution_ms).as_str(),
            ms_tail,
        );
        push_row(
            &mut out,
            "║   Avg per call:       ",
            average_text(resolution_ms, s.resolution_calls).as_str(),
            us_tail,
        );
        push_line(&mut out, rule);
        push_line(&mut out, "║ Reference Finding:                                        ║");
        push_row(
            &mut out,
            "║   Symbol lookups:     ",
            format_number(s.reference_lookups as u64).as_str(),
            plain_tail,
        );
        push_row(
            &mut out,
            "║   Local ref calls:    ",
            format_number(s.local_reference_calls as u64).as_str(),
            plain_tail,
        );
        push_row(&mut out, "║   Time spent:         ", format_number(local_ms).as_str(), ms_tail);
        push_row(
            &mut out,
            "║   Avg per call:       ",
            average_text(local_ms, s.local_reference_calls).as_str(),
            us_tail,
        );
        push_line(&mut out, rule);
        push_line(&mut out, "║ Re-export Checking:                                       ║");
        push_row(
            &mut out,
            "║   Total checks:       ",
            format_number(s.reexport_checks as u64).as_str(),
            plain_tail,
        );
        push_row(
            &mut out,
            "║   Time spent:         ",
            format_number(reexport_ms).as_str(),
            ms_tail,
        );
        push_row(
            &mut out,
            "║   Avg per check:      ",
            average_text(reexport_ms, s.reexport_checks).as_str(),
            us_tail,
        );
        push_line(&mut out, rule);
        push_line(&mut out, "║ Symbol Extraction:                                        ║");
        push_row(
            &mut out,
            "║   Total extractions:  ",
            format_number(s.symbol_extractions as u64).as_str(),
            plain_tail,
        );
        push_row(&mut out, "║   Time spent:         ", format_number(symbol_ms).as_str(), ms_tail);
        push_row(
            &mut out,
            "║   Avg per extract:    ",
            average_text(symbol_ms, s.symbol_extractions).as_str(),
            us_tail,
        );
        push_line(&mut out, "╚═══════════════════════════════════════════════════════════╝");
        let ghost table = seq![
            "\n╔═══════════════════════════════════════════════════════════╗"@,
            "║           PERFORMANCE PROFILING REPORT                    ║"@,
        ] + rule_part() + resolution_part(*s, *ratios) + rule_part() + reference_part(*s)
            + rule_part() + reexport_part(*s) + rule_part() + symbol_part(*s) + seq![
            "╚═══════════════════════════════════════════════════════════╝"@,
        ];
        assert(out.deep_view() =~= table);
        if resolution_ms + local_ms + reexport_ms + symbol_ms > 0 {
            push_line(&mut out, "\n═══════════════════ TIME BREAKDOWN ═══════════════════");
            push_share(&mut out, "Resolution:     ", resolution_ms, ratios.resolution.as_str());
            push_share(&mut out, "Local refs:     ", local_ms, ratios.local.as_str());
            push_share(&mut out, "Re-exports:     ", reexport_ms, ratios.reexport.as_str());
            push_share(&mut out, "Symbol extract: ", symbol_ms, ratios.symbol.as_str());
            push_line(&mut out, "═══════════════════════════════════════════════════════\n");
        }
        let ghost upto = table + breakdown_part(*s, *ratios);
        assert(out.deep_view() =~= upto);
        push_line(&mut out, "💡 INSIGHTS:");
        if ratios.low && s.resolution_calls > 100 {
            push_line(
                &mut out,
                text::cat3(
                    "   ⚠️  Low cache hit rate (",
                    ratios.hit_rate_plain.as_str(),
                    "%) - consider pre-resolving imports",
                ).as_str(),
            );
        }
        if ratios.excellent {
            push_line(
                &mut out,
                text::cat3(
                    "   ✅ Excellent cache hit rate (",
                    ratios.hit_rate_plain.as_str(),
                    "%)",
                ).as_str(),
            );
        }
        if resolution_ms > local_ms {
            push_line(
                &mut out,
                "   ⚠️  Resolution is the bottleneck - optimize import resolution",
            );
        } else if local_ms > resolution_ms {
            push_line(&mut out, "   ⚠️  Local reference finding is the bottleneck");
        }
        push_line(&mut out, "");
        assert(out.deep_view() =~= upto + insight_part(*s, *ratios));
        Some(out)
    }
}

// ---------------------------------------------------------------------------
// Tallies
// ---------------------------------------------------------------------------

/// A counter after `n` more; it starts again at zero when it is full.
pub open spec fn ticked(counter: usize, n: nat) -> usize {
    ((counter + n) % (usize::MAX + 1)) as usize
}

/// How often each thing was done.
pub struct Tally {
    pub resolutions: nat,
    pub hits: nat,
    pub lookups: nat,
    pub searches: nat,
    pub extractions: nat,
}

/// Nothing was done.
pub open spec fn nothing() -> Tally {
    Tally { resolutions: 0, hits: 0, lookups: 0, searches: 0, extractions: 0 }
}

impl Tally {
    /// What was done, and then more.
    pub open spec fn plus(self, more: Tally) -> Tally {
        Tally {
            resolutions: self.resolutions + more.resolutions,
            hits: self.hits + more.hits,
            lookups: self.lookups + more.lookups,
            searches: self.searches + more.searches,
            extractions: self.extractions + more.extractions,
        }
    }
}

/// What the counters show once a tally has been taken. How long things took is left open, for it
/// depends on the clock; the times stay where nothing was done.
pub open spec fn tallied(b: ProfileStats, t: Tally, times: ProfileStats) -> ProfileStats {
    ProfileStats {
        resolution_calls: ticked(b.resolution_calls, t.resolutions),
        resolution_cache_hits: ticked(b.resolution_cache_hits, t.hits),
        resolution_time_ns: if t.resolutions == 0 {
            b.resolution_time_ns
        } else {
            times.resolution_time_ns
        },
        reference_lookups: ticked(b.reference_lookups, t.lookups),
        local_reference_calls: ticked(b.local_reference_calls, t.searches),
        local_reference_time_ns: if t.searches == 0 {
            b.local_reference_time_ns
        } else {
            times.local_reference_time_ns
        },
        symbol_extractions: ticked(b.symbol_extractions, t.extractions),
        symbol_extraction_time_ns: if t.extractions == 0 {
            b.symbol_extraction_time_ns
        } else {
            times.symbol_extraction_time_ns
        },
        ..b
    }
}

/// The profiler has taken a tally, if it counts at all.
pub open spec fn is_tally(before: Profiler, after: Profiler, t: Tally) -> bool {
    &&& after.enabled() == before.enabled()
    &&& after.counted() == if before.enabled() {
        tallied(before.counted(), t, after.counted())
    } else {
        before.counted()
    }
}

/// A counter that counts one more, and one that does not.
pub proof fn lemma_ticked_once(counter: usize)
    ensures
        ticked(counter, 1) == counter.wrapping_add(1),
        ticked(counter, 0) == counter,
{
    let m = usize::MAX + 1;
    vstd::arithmetic::div_mod::lemma_small_mod(counter as nat, m as nat);
    if counter < usize::MAX {
        vstd::arithmetic::div_mod::lemma_small_mod((counter + 1) as nat, m as nat);
    } else {
        vstd::arithmetic::div_mod::lemma_mod_self_0(m);
    }
}

/// A counter that counts on from where it stood.
pub proof fn lemma_ticked_on(counter: usize, m: nat, n: nat)
    ensures
        ticked(ticked(counter, m), n) == ticked(counter, m + n),
{
    let full = usize::MAX + 1;
    let x = (counter + m) as int;
    vstd::arithmetic::div_mod::lemma_mod_bound(x, full);
    vstd::arithmetic::div_mod::lemma_mod_bound(x % full + n, full);
    vstd::arithmetic::div_mod::lemma_mod_bound(x + n, full);
    vstd::arithmetic::div_mod::lemma_add_mod_noop(x, n as int, full);
    vstd::arithmetic::div_mod::lemma_add_mod_noop(x % full, n as int, full);
    vstd::arithmetic::div_mod::lemma_mod_twice(x, full);
}

/// How each counter counts one more, and none.
pub proof fn lemma_counters(s: ProfileStats)
    ensures
        ticked(s.resolution_calls, 0) == s.resolution_calls,
        ticked(s.resolution_calls, 1) == s.resolution_calls.wrapping_add(1),
        ticked(s.resolution_cache_hits, 0) == s.resolution_cache_hits,
        ticked(s.resolution_cache_hits, 1) == s.resolution_cache_hits.wrapping_add(1),
        ticked(s.reference_lookups, 0) == s.reference_lookups,
        ticked(s.reference_lookups, 1) == s.reference_lookups.wrapping_add(1),
        ticked(s.local_reference_calls, 0) == s.local_reference_calls,
        ticked(s.local_reference_calls, 1) == s.local_reference_calls.wrapping_add(1),
        ticked(s.symbol_extractions, 0) == s.symbol_extractions,
        ticked(s.symbol_extractions, 1) == s.symbol_extractions.wrapping_add(1),
{
    lemma_ticked_once(s.resolution_calls);
    lemma_ticked_once(s.resolution_cache_hits);
    lemma_ticked_once(s.reference_lookups);
    lemma_ticked_once(s.local_reference_calls);
    lemma_ticked_once(s.symbol_extractions);
}

/// Where nothing was done, nothing is counted.
pub proof fn lemma_no_tally(p: Profiler)
    ensures
        is_tally(p, p, nothing()),
{
    lemma_counters(p.counted());
}

/// One tally after another is the tally of both.
pub proof fn lemma_tally_on(p: Profiler, q: Profiler, r: Profiler, t: Tally, more: Tally)
    requires
        is_tally(p, q, t),
        is_tally(q, r, more),
    ensures
        is_tally(p, r, t.plus(more)),
{
    let s = p.counted();
    lemma_ticked_on(s.resolution_calls, t.resolutions, more.resolutions);
    lemma_ticked_on(s.resolution_cache_hits, t.hits, more.hits);
    lemma_ticked_on(s.reference_lookups, t.lookups, more.lookups);
    lemma_ticked_on(s.local_reference_calls, t.searches, more.searches);
    lemma_ticked_on(s.symbol_extractions, t.extractions, more.extractions);
}

impl Profiler {
    /// Counts a resolution that began at `start`, if that was noted.
    pub(crate) fn tally_resolution(&mut self, cache_hit: bool, start: Option<Instant>)
        requires
            start is Some <==> old(self).enabled(),
        ensures
            is_tally(
                *old(self),
                *final(self),
                (Tally {
                    resolutions: 1,
                    hits: if cache_hit {
                        1
                    } else {
                        0
                    },
                    ..nothing()
                }),
            ),
    {
        proof {
            lemma_counters(self.counted());
        }
        if let Some(begin) = start {
            self.record_resolution(cache_hit, nanos_since(&begin));
        }
    }

    /// Counts a lookup.
    pub(crate) fn tally_lookup(&mut self)
        ensures
            is_tally(*old(self), *final(self), (Tally { lookups: 1, ..nothing() })),
    {
        proof {
            lemma_counters(self.counted());
        }
        self.record_reference_lookup();
    }

    /// Counts a search inside a file that began at `start`, if that was noted.
    pub(crate) fn tally_search(&mut self, start: Option<Instant>)
        requires
            start is Some <==> old(self).enabled(),
        ensures
            is_tally(*old(self), *final(self), (Tally { searches: 1, ..nothing() })),
    {
        proof {
            lemma_counters(self.counted());
        }
        if let Some(begin) = start {
            self.record_local_reference(nanos_since(&begin));
        }
    }

    /// Counts an extraction of symbols that began at `start`, if that was noted.
    pub(crate) fn tally_extraction(&mut self, start: Option<Instant>)
        requires
            start is Some <==> old(self).enabled(),
        ensures
            is_tally(*old(self), *final(self), (Tally { extractions: 1, ..nothing() })),
    {
        proof {
            lemma_counters(self.counted());
        }
        if let Some(begin) = start {
            self.record_symbol_extraction(nanos_since(&begin));
        }
    }
}

// ---------------------------------------------------------------------------
// Timers
// ---------------------------------------------------------------------------

/// The declaration of `std::time::Instant`.
#[verifier::external_type_specification]
#[verifier::external_body]
pub struct ExInstant(Instant);

/// `std::time::Instant::now`. Nothing is said of the result: it depends on the clock.
#[verifier::external_body]
fn clock() -> Instant {
    Instant::now()
}

/// `std::time::Instant::elapsed`, in nanoseconds. Nothing is said of the result: it depends on the
/// clock.
#[verifier::external_body]
fn nanos_since(start: &Instant) -> u64 {
    start.elapsed().as_nanos() as u64
}

/// Measures a time and hands it to a callback.
pub struct TimerGuard<F: FnOnce(u64)> {
    start: Instant,
    callback: F,
}

impl<F: FnOnce(u64)> TimerGuard<F> {
    /// What is done with the measured time.
    pub closed spec fn callback(&self) -> F {
        self.callback
    }

    /// Starts the clock.
    pub fn new(callback: F) -> (r: Self)
        ensures
            r.callback() == callback,
    {
        TimerGuard { start: clock(), callback }
    }

    /// Stops the clock and hands the time, in nanoseconds, to the callback.
    pub fn finish(self)
        requires
            forall|ns: u64| #[trigger] call_requires(self.callback(), (ns,)),
        ensures
            exists|ns: u64| #[trigger] call_ensures(self.callback(), (ns,), ()),
    {
        let ghost whole = self;
        let ns: u64 = nanos_since(&self.start);
        let callback = self.callback;
        assert(callback == whole.callback());
        assert(call_requires(whole.callback(), (ns,)));
        callback(ns);
        assert(call_ensures(whole.callback(), (ns,), ()));
    }
}

} // verus!
