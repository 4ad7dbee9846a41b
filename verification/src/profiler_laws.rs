//! What holds of every profile.

use crate::profiler::{
    average, breakdown_part, insight_part, measured, millis, reexport_part, reference_part,
    report_of, resolution_part, row, rule_part, share_row, symbol_part, tallied, ticked, ProfileStats,
    Ratios, Tally,
};
use crate::text::{decimal, grouped, right_aligned, Text};
use vstd::prelude::*;

verus! {

/// A time in milliseconds is that in nanoseconds, rounded down.
pub proof fn lemma_millis(ns: u64)
    ensures
        millis(ns) * 1_000_000 <= ns < (millis(ns) + 1) * 1_000_000,
{
}

/// The time per call is the time in microseconds, divided by the calls; without a call it is zero.
pub proof fn lemma_average(ms: u64, calls: usize)
    ensures
        calls > 0 ==> average(ms, calls) == grouped(decimal((1000 * ms / calls as int) as nat)),
        calls == 0 ==> average(ms, calls) == "0"@,
{
    assert(1000 * ms == ms * 1000);
}

/// A part stands in the report.
pub open spec fn has_part(lines: Seq<Text>, part: Seq<Text>) -> bool {
    exists|at: int|
        0 <= at && at + part.len() <= lines.len() && #[trigger] lines.subrange(
            at,
            at + part.len(),
        ) == part
}

proof fn lemma_has_part(front: Seq<Text>, part: Seq<Text>, back: Seq<Text>)
    ensures
        has_part(front + part + back, part),
{
    let lines = front + part + back;
    let at = front.len() as int;
    assert(lines.subrange(at, at + part.len()) =~= part);
}

proof fn lemma_has_part_on(lines: Seq<Text>, part: Seq<Text>, more: Seq<Text>)
    requires
        has_part(lines, part),
    ensures
        has_part(lines + more, part),
{
    let at = choose|at: int|
        0 <= at && at + part.len() <= lines.len() && #[trigger] lines.subrange(
            at,
            at + part.len(),
        ) == part;
    let all = lines + more;
    assert(all.subrange(at, at + part.len()) =~= part);
}

proof fn lemma_line_of_part(lines: Seq<Text>, part: Seq<Text>, i: int)
    requires
        has_part(lines, part),
        0 <= i < part.len(),
    ensures
        lines.contains(part[i]),
{
    let at = choose|at: int|
        0 <= at && at + part.len() <= lines.len() && #[trigger] lines.subrange(
            at,
            at + part.len(),
        ) == part;
    assert(lines.subrange(at, at + part.len())[i] == lines[at + i]);
}

/// The report has a part on resolution, on reference finding, on re-exports and on symbols, and ends
/// with how the time divides and with what the numbers suggest.
pub proof fn lemma_report_parts(s: ProfileStats, r: Ratios)
    ensures
        has_part(report_of(s, r), resolution_part(s, r)),
        has_part(report_of(s, r), reference_part(s)),
        has_part(report_of(s, r), reexport_part(s)),
        has_part(report_of(s, r), symbol_part(s)),
        has_part(report_of(s, r), breakdown_part(s, r)),
        has_part(report_of(s, r), insight_part(s, r)),
{
    let none = Seq::<Text>::empty();
    let l0 = seq![
        "\n╔═══════════════════════════════════════════════════════════╗"@,
        "║           PERFORMANCE PROFILING REPORT                    ║"@,
    ];
    let rule = rule_part();
    let l1 = l0 + rule;
    let l2 = l1 + resolution_part(s, r);
    let l3 = l2 + rule;
    let l4 = l3 + reference_part(s);
    let l5 = l4 + rule;
    let l6 = l5 + reexport_part(s);
    let l7 = l6 + rule;
    let l8 = l7 + symbol_part(s);
    let end = seq!["╚═══════════════════════════════════════════════════════════╝"@];
    let l9 = l8 + end;
    let l10 = l9 + breakdown_part(s, r);
    let l11 = l10 + insight_part(s, r);
    assert(report_of(s, r) == l11);
    lemma_has_part(l1, resolution_part(s, r), none);
    assert(l2 + none =~= l2);
    lemma_has_part_on(l2, resolution_part(s, r), rule);
    lemma_has_part_on(l3, resolution_part(s, r), reference_part(s));
    lemma_has_part_on(l4, resolution_part(s, r), rule);
    lemma_has_part_on(l5, resolution_part(s, r), reexport_part(s));
    lemma_has_part_on(l6, resolution_part(s, r), rule);
    lemma_has_part_on(l7, resolution_part(s, r), symbol_part(s));
    lemma_has_part_on(l8, resolution_part(s, r), end);
    lemma_has_part_on(l9, resolution_part(s, r), breakdown_part(s, r));
    lemma_has_part_on(l10, resolution_part(s, r), insight_part(s, r));
    lemma_has_part(l3, reference_part(s), none);
    assert(l4 + none =~= l4);
    lemma_has_part_on(l4, reference_part(s), rule);
    lemma_has_part_on(l5, reference_part(s), reexport_part(s));
    lemma_has_part_on(l6, reference_part(s), rule);
    lemma_has_part_on(l7, reference_part(s), symbol_part(s));
    lemma_has_part_on(l8, reference_part(s), end);
    lemma_has_part_on(l9, reference_part(s), breakdown_part(s, r));
    lemma_has_part_on(l10, reference_part(s), insight_part(s, r));
    lemma_has_part(l5, reexport_part(s), none);
    assert(l6 + none =~= l6);
    lemma_has_part_on(l6, reexport_part(s), rule);
    lemma_has_part_on(l7, reexport_part(s), symbol_part(s));
    lemma_has_part_on(l8, reexport_part(s), end);
    lemma_has_part_on(l9, reexport_part(s), breakdown_part(s, r));
    lemma_has_part_on(l10, reexport_part(s), insight_part(s, r));
    lemma_has_part(l7, symbol_part(s), none);
    assert(l8 + none =~= l8);
    lemma_has_part_on(l8, symbol_part(s), end);
    lemma_has_part_on(l9, symbol_part(s), breakdown_part(s, r));
    lemma_has_part_on(l10, symbol_part(s), insight_part(s, r));
    lemma_has_part(l9, breakdown_part(s, r), insight_part(s, r));
    lemma_has_part(l10, insight_part(s, r), none);
    assert(l11 + none =~= l11);
}

/// Each counter is reported under its own head, in ten characters.
pub proof fn lemma_report_counters(s: ProfileStats, r: Ratios)
    ensures
        report_of(s, r).contains(
            "║   Total calls:        "@ + right_aligned(
                grouped(decimal(s.resolution_calls as nat)),
                10,
            ) + "                         ║"@,
        ),
        report_of(s, r).contains(
            "║   Cache hits:         "@ + right_aligned(
                grouped(decimal(s.resolution_cache_hits as nat)),
                10,
            ) + (" ("@ + r.hit_rate@ + "%)                ║"@),
        ),
        report_of(s, r).contains(
            "║   Symbol lookups:     "@ + right_aligned(
                grouped(decimal(s.reference_lookups as nat)),
                10,
            ) + "                         ║"@,
        ),
        report_of(s, r).contains(
            "║   Local ref calls:    "@ + right_aligned(
                grouped(decimal(s.local_reference_calls as nat)),
                10,
            ) + "                         ║"@,
        ),
        report_of(s, r).contains(
            "║   Total checks:       "@ + right_aligned(
                grouped(decimal(s.reexport_checks as nat)),
                10,
            ) + "                         ║"@,
        ),
        report_of(s, r).contains(
            "║   Total extractions:  "@ + right_aligned(
                grouped(decimal(s.symbol_extractions as nat)),
                10,
            ) + "                         ║"@,
        ),
{
    lemma_report_parts(s, r);
    let lines = report_of(s, r);
    lemma_line_of_part(lines, resolution_part(s, r), 1);
    lemma_line_of_part(lines, resolution_part(s, r), 2);
    lemma_line_of_part(lines, reference_part(s), 1);
    lemma_line_of_part(lines, reference_part(s), 2);
    lemma_line_of_part(lines, reexport_part(s), 1);
    lemma_line_of_part(lines, symbol_part(s), 1);
}

/// A time under its head in the report, and the time per call.
pub open spec fn tells_time(part: Seq<Text>, ns: u64, head: Text, calls: usize) -> bool {
    &&& part.contains(
        "║   Time spent:         "@ + right_aligned(grouped(decimal((ns / 1_000_000) as nat)), 10)
            + " ms                      ║"@,
    )
    &&& part.contains(
        head + right_aligned(average(ns / 1_000_000, calls), 10) + " μs                      ║"@,
    )
}

/// Each part tells its own time in milliseconds, and that time per call.
pub proof fn lemma_report_times(s: ProfileStats, r: Ratios)
    ensures
        tells_time(
            resolution_part(s, r),
            s.resolution_time_ns,
            "║   Avg per call:       "@,
            s.resolution_calls,
        ),
        tells_time(
            reference_part(s),
            s.local_reference_time_ns,
            "║   Avg per call:       "@,
            s.local_reference_calls,
        ),
        tells_time(
            reexport_part(s),
            s.reexport_time_ns,
            "║   Avg per check:      "@,
            s.reexport_checks,
        ),
        tells_time(
            symbol_part(s),
            s.symbol_extraction_time_ns,
            "║   Avg per extract:    "@,
            s.symbol_extractions,
        ),
{
    let a = resolution_part(s, r);
    assert(a.contains(a[3]) && a.contains(a[4]));
    let b = reference_part(s);
    assert(b.contains(b[3]) && b.contains(b[4]));
    let c = reexport_part(s);
    assert(c.contains(c[2]) && c.contains(c[3]));
    let d = symbol_part(s);
    assert(d.contains(d[2]) && d.contains(d[3]));
}

/// The breakdown is there where a millisecond was measured anywhere, and gives each part its time and
/// its share.
pub proof fn lemma_breakdown(s: ProfileStats, r: Ratios)
    ensures
        s.resolution_time_ns >= 1_000_000 || s.local_reference_time_ns >= 1_000_000
            || s.reexport_time_ns >= 1_000_000 || s.symbol_extraction_time_ns >= 1_000_000 <==> measured(
            s,
        ),
        !measured(s) ==> breakdown_part(s, r).len() == 0,
        measured(s) ==> breakdown_part(s, r).contains(
            "Resolution:     "@ + right_aligned(
                decimal((s.resolution_time_ns / 1_000_000) as nat),
                6,
            ) + " ms ("@ + r.resolution@ + "%)"@,
        ),
        measured(s) ==> breakdown_part(s, r).contains(
            "Local refs:     "@ + right_aligned(
                decimal((s.local_reference_time_ns / 1_000_000) as nat),
                6,
            ) + " ms ("@ + r.local@ + "%)"@,
        ),
        measured(s) ==> breakdown_part(s, r).contains(
            "Re-exports:     "@ + right_aligned(
                decimal((s.reexport_time_ns / 1_000_000) as nat),
                6,
            ) + " ms ("@ + r.reexport@ + "%)"@,
        ),
        measured(s) ==> breakdown_part(s, r).contains(
            "Symbol extract: "@ + right_aligned(
                decimal((s.symbol_extraction_time_ns / 1_000_000) as nat),
                6,
            ) + " ms ("@ + r.symbol@ + "%)"@,
        ),
{
    if measured(s) {
        let b = breakdown_part(s, r);
        assert(b.contains(b[1]) && b.contains(b[2]) && b.contains(b[3]) && b.contains(b[4]));
    }
}

/// A low hit rate is named where more than a hundred imports were resolved, an excellent one always,
/// and the slower of resolution and local reference finding as the bottleneck.
pub proof fn lemma_insights(s: ProfileStats, r: Ratios)
    ensures
        r.low && s.resolution_calls > 100 ==> insight_part(s, r).contains(
            "   ⚠️  Low cache hit rate ("@ + r.hit_rate_plain@
                + "%) - consider pre-resolving imports"@,
        ),
        r.excellent ==> insight_part(s, r).contains(
            "   ✅ Excellent cache hit rate ("@ + r.hit_rate_plain@ + "%)"@,
        ),
        s.resolution_time_ns / 1_000_000 > s.local_reference_time_ns / 1_000_000 ==> insight_part(
            s,
            r,
        ).contains("   ⚠️  Resolution is the bottleneck - optimize import resolution"@),
        s.resolution_time_ns / 1_000_000 < s.local_reference_time_ns / 1_000_000 ==> insight_part(
            s,
            r,
        ).contains("   ⚠️  Local reference finding is the bottleneck"@),
        !(r.low && s.resolution_calls > 100) && !r.excellent && s.resolution_time_ns / 1_000_000
            == s.local_reference_time_ns / 1_000_000 ==> insight_part(s, r) == seq![
            "💡 INSIGHTS:"@,
            ""@,
        ],
{
    let all = insight_part(s, r);
    let a: int = if r.low && s.resolution_calls > 100 {
        1
    } else {
        0
    };
    let b: int = if r.excellent {
        1
    } else {
        0
    };
    if a == 1 {
        assert(all[1] == "   ⚠️  Low cache hit rate ("@ + r.hit_rate_plain@
            + "%) - consider pre-resolving imports"@);
    }
    if b == 1 {
        assert(all[1 + a] == "   ✅ Excellent cache hit rate ("@ + r.hit_rate_plain@ + "%)"@);
    }
    if s.resolution_time_ns / 1_000_000 > s.local_reference_time_ns / 1_000_000 {
        assert(all[1 + a + b]
            == "   ⚠️  Resolution is the bottleneck - optimize import resolution"@);
    }
    if s.resolution_time_ns / 1_000_000 < s.local_reference_time_ns / 1_000_000 {
        assert(all[1 + a + b] == "   ⚠️  Local reference finding is the bottleneck"@);
    }
}

/// A tally moves each counter on by what was done of its kind, and no other; re-exports are not
/// tallied.
pub proof fn lemma_tallied(b: ProfileStats, t: Tally, times: ProfileStats)
    requires
        b.resolution_calls + t.resolutions <= usize::MAX,
        b.resolution_cache_hits + t.hits <= usize::MAX,
        b.reference_lookups + t.lookups <= usize::MAX,
        b.local_reference_calls + t.searches <= usize::MAX,
        b.symbol_extractions + t.extractions <= usize::MAX,
    ensures
        tallied(b, t, times).resolution_calls == b.resolution_calls + t.resolutions,
        tallied(b, t, times).resolution_cache_hits == b.resolution_cache_hits + t.hits,
        tallied(b, t, times).reference_lookups == b.reference_lookups + t.lookups,
        tallied(b, t, times).local_reference_calls == b.local_reference_calls + t.searches,
        tallied(b, t, times).symbol_extractions == b.symbol_extractions + t.extractions,
        tallied(b, t, times).reexport_checks == b.reexport_checks,
        tallied(b, t, times).reexport_time_ns == b.reexport_time_ns,
{
    let m = (usize::MAX + 1) as nat;
    vstd::arithmetic::div_mod::lemma_small_mod((b.resolution_calls + t.resolutions) as nat, m);
    vstd::arithmetic::div_mod::lemma_small_mod((b.resolution_cache_hits + t.hits) as nat, m);
    vstd::arithmetic::div_mod::lemma_small_mod((b.reference_lookups + t.lookups) as nat, m);
    vstd::arithmetic::div_mod::lemma_small_mod((b.local_reference_calls + t.searches) as nat, m);
    vstd::arithmetic::div_mod::lemma_small_mod((b.symbol_extractions + t.extractions) as nat, m);
}

} // verus!
