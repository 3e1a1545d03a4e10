//! Stream orchestration: the skeleton is computed from the catalog
//! and the probe set, per-widget query jobs are planned for every
//! available widget, and each query outcome is turned into at most
//! one update message. The surrounding transport runs the jobs
//! concurrently; every decision it needs is taken here.
use vstd::prelude::*;

use crate::downsample::downsample;
use crate::downsample::spec_downsample;
use crate::message::ChartSkelV;
use crate::message::ChartSkeleton;
use crate::message::ChartUpdate;
use crate::message::ChartUpdateV;
use crate::message::CompletionEvent;
use crate::message::DashboardSkeleton;
use crate::message::MessageV;
use crate::message::SeriesSkelV;
use crate::message::SeriesSkeleton;
use crate::message::SeriesUpdate;
use crate::message::SeriesUpdateV;
use crate::message::SkeletonV;
use crate::message::StreamMessage;
use crate::message::TileSkelV;
use crate::message::TileSkeleton;
use crate::message::TileUpdate;
use crate::message::TileUpdateV;
use crate::probe::available;
use crate::probe::is_probe_available;
use crate::probe::ProbeMetadata;
use crate::telemetry::TimeSeriesPoint;
use crate::template::prepare_query;
use crate::template::resolve;
use crate::template::vars_view;
use crate::text::i64_to_string;
use crate::text::int_str;
use crate::widgets::kind_of;
use crate::widgets::parse_chart_kind;
use crate::widgets::ChartConfig;
use crate::widgets::SeriesConfig;
use crate::widgets::TileConfig;
use crate::widgets::WidgetsConfig;

verus! {

/// The bound on points per chart series on the wire.
pub const MAX_POINTS_PER_SERIES: usize = 150;

/// Whether a tile's probe is available.
pub open spec fn tile_avail(probes: Seq<ProbeMetadata>) -> spec_fn(TileConfig) -> bool {
    |t: TileConfig| available(t.query@, probes)
}

/// Whether a series' probe is available.
pub open spec fn series_avail(probes: Seq<ProbeMetadata>) -> spec_fn(SeriesConfig) -> bool {
    |s: SeriesConfig| available(s.query@, probes)
}

/// The skeleton announcement of a tile.
pub open spec fn tile_to_skel() -> spec_fn(TileConfig) -> TileSkelV {
    |t: TileConfig| TileSkelV { id: t.id@, title: t.title@, unit: t.unit@, precision: t.precision }
}

/// The skeleton announcement of a series.
pub open spec fn series_to_skel() -> spec_fn(SeriesConfig) -> SeriesSkelV {
    |s: SeriesConfig| SeriesSkelV { id: s.id@, name: s.name@, color: s.color.deep_view() }
}

/// The skeleton announcement of a chart: its own fields, with only
/// the available series.
pub open spec fn chart_to_skel(probes: Seq<ProbeMetadata>) -> spec_fn(ChartConfig) -> ChartSkelV {
    |c: ChartConfig|
        ChartSkelV {
            id: c.id@,
            title: c.title@,
            unit: c.unit.deep_view(),
            kind: kind_of(c.kind@),
            y_min: c.y_min,
            y_max: c.y_max,
            fraction_digits: c.fraction_digits,
            series: c.series@.filter(series_avail(probes)).map_values(series_to_skel()),
        }
}

/// A chart that kept at least one series.
pub open spec fn chart_nonempty() -> spec_fn(ChartSkelV) -> bool {
    |c: ChartSkelV| c.series.len() > 0
}

/// The skeleton for a request: exactly the available tiles, and
/// exactly the charts that keep at least one available series.
pub open spec fn skeleton_of(
    source_id: Seq<char>,
    cfg: &WidgetsConfig,
    probes: Seq<ProbeMetadata>,
) -> SkeletonV {
    SkeletonV {
        source_id: source_id,
        tiles: cfg.tiles@.filter(tile_avail(probes)).map_values(tile_to_skel()),
        charts: cfg.charts@.map_values(chart_to_skel(probes)).filter(chart_nonempty()),
    }
}

/// Clones an optional string.
fn clone_opt_string(o: &Option<String>) -> (r: Option<String>)
    ensures
        r.deep_view() == o.deep_view(),
{
    match o {
        None => None,
        Some(s) => Some(s.clone()),
    }
}

/// The skeleton announcements of a chart's available series.
#[verifier::rlimit(100)]
#[verifier::loop_isolation(false)]
fn filtered_series_skels(series: &Vec<SeriesConfig>, probes: &Vec<ProbeMetadata>) -> (r: Vec<
    SeriesSkeleton,
>)
    ensures
        r.deep_view() == series@.filter(series_avail(probes@)).map_values(series_to_skel()),
{
    let n: usize = series.len();
    let mut out: Vec<SeriesSkeleton> = Vec::new();
    proof {
        reveal(Seq::filter);
        assert(series@.take(0) =~= Seq::<SeriesConfig>::empty());
        assert(out.deep_view() =~= series@.take(0).filter(series_avail(probes@)).map_values(
            series_to_skel(),
        ));
    }
    let mut i: usize = 0;
    while i < n
        invariant
            i <= n,
            out.deep_view() == series@.take(i as int).filter(series_avail(probes@)).map_values(
                series_to_skel(),
            ),
        decreases n - i,
    {
        let ghost old_dv = out.deep_view();
        if is_probe_available(series[i].query.as_str(), probes) {
            let s = SeriesSkeleton {
                id: series[i].id.clone(),
                name: series[i].name.clone(),
                color: clone_opt_string(&series[i].color),
            };
            proof {
                assert(s.deep_view() =~= series_to_skel()(series@[i as int]));
            }
            out.push(s);
            proof {
                assert(out.deep_view() =~= old_dv.push(series_to_skel()(series@[i as int])));
            }
        }
        proof {
            reveal(Seq::filter);
            let t = series@.take(i + 1);
            assert(t.drop_last() =~= series@.take(i as int));
            assert(t.last() == series@[i as int]);
            if series_avail(probes@)(series@[i as int]) {
                assert(t.filter(series_avail(probes@)) == series@.take(i as int).filter(
                    series_avail(probes@),
                ).push(series@[i as int]));
                assert(out.deep_view() =~= t.filter(series_avail(probes@)).map_values(
                    series_to_skel(),
                ));
            } else {
                assert(t.filter(series_avail(probes@)) == series@.take(i as int).filter(
                    series_avail(probes@),
                ));
                assert(out.deep_view() =~= t.filter(series_avail(probes@)).map_values(
                    series_to_skel(),
                ));
            }
        }
        i += 1;
    }
    proof {
        assert(series@.take(n as int) =~= series@);
    }
    out
}

/// Builds the skeleton: the catalog filtered through the availability
/// decision, so the announced set and the dispatched set agree by
/// construction.
#[verifier::rlimit(100)]
#[verifier::loop_isolation(false)]
pub fn build_skeleton(source_id: &str, cfg: &WidgetsConfig, probes: &Vec<ProbeMetadata>) -> (r:
    DashboardSkeleton)
    ensures
        r.deep_view() == skeleton_of(source_id@, cfg, probes@),
{
    let nt: usize = cfg.tiles.len();
    let mut tiles: Vec<TileSkeleton> = Vec::new();
    proof {
        reveal(Seq::filter);
        assert(cfg.tiles@.take(0) =~= Seq::<TileConfig>::empty());
        assert(tiles.deep_view() =~= cfg.tiles@.take(0).filter(tile_avail(probes@)).map_values(
            tile_to_skel(),
        ));
    }
    let mut i: usize = 0;
    while i < nt
        invariant
            i <= nt,
            tiles.deep_view() == cfg.tiles@.take(i as int).filter(tile_avail(probes@)).map_values(
                tile_to_skel(),
            ),
        decreases nt - i,
    {
        let ghost old_tiles = tiles.deep_view();
        if is_probe_available(cfg.tiles[i].query.as_str(), probes) {
            let t = TileSkeleton {
                id: cfg.tiles[i].id.clone(),
                title: cfg.tiles[i].title.clone(),
                unit: cfg.tiles[i].unit.clone(),
                precision: cfg.tiles[i].precision,
            };
            proof {
                assert(t.deep_view() =~= tile_to_skel()(cfg.tiles@[i as int]));
            }
            tiles.push(t);
            proof {
                assert(tiles.deep_view() =~= old_tiles.push(tile_to_skel()(cfg.tiles@[i as int])));
            }
        }
        proof {
            reveal(Seq::filter);
            let t = cfg.tiles@.take(i + 1);
            assert(t.drop_last() =~= cfg.tiles@.take(i as int));
            assert(t.last() == cfg.tiles@[i as int]);
            assert(tiles.deep_view() =~= t.filter(tile_avail(probes@)).map_values(tile_to_skel()));
        }
        i += 1;
    }
    proof {
        assert(cfg.tiles@.take(nt as int) =~= cfg.tiles@);
    }
    let nc: usize = cfg.charts.len();
    let mut charts: Vec<ChartSkeleton> = Vec::new();
    proof {
        reveal(Seq::filter);
        assert(cfg.charts@.take(0) =~= Seq::<ChartConfig>::empty());
        assert(cfg.charts@.take(0).map_values(chart_to_skel(probes@)) =~= Seq::<
            ChartSkelV,
        >::empty());
        assert(charts.deep_view() =~= cfg.charts@.take(0).map_values(chart_to_skel(probes@)).filter(
            chart_nonempty(),
        ));
    }
    let mut j: usize = 0;
    while j < nc
        invariant
            j <= nc,
            charts.deep_view() == cfg.charts@.take(j as int).map_values(
                chart_to_skel(probes@),
            ).filter(chart_nonempty()),
        decreases nc - j,
    {
        let series = filtered_series_skels(&cfg.charts[j].series, probes);
        let c = ChartSkeleton {
            id: cfg.charts[j].id.clone(),
            title: cfg.charts[j].title.clone(),
            unit: clone_opt_string(&cfg.charts[j].unit),
            kind: parse_chart_kind(cfg.charts[j].kind.as_str()),
            y_min: cfg.charts[j].y_min,
            y_max: cfg.charts[j].y_max,
            fraction_digits: cfg.charts[j].fraction_digits,
            series,
        };
        proof {
            assert(c.deep_view() =~= chart_to_skel(probes@)(cfg.charts@[j as int]));
        }
        let ghost old_charts = charts.deep_view();
        let ghost cv = chart_to_skel(probes@)(cfg.charts@[j as int]);
        let keep = c.series.len() > 0;
        if keep {
            charts.push(c);
            proof {
                assert(charts.deep_view() =~= old_charts.push(cv));
            }
        }
        proof {
            reveal(Seq::filter);
            let mapped = cfg.charts@.take(j + 1).map_values(chart_to_skel(probes@));
            assert(mapped.drop_last() =~= cfg.charts@.take(j as int).map_values(
                chart_to_skel(probes@),
            ));
            assert(mapped.last() == chart_to_skel(probes@)(cfg.charts@[j as int]));
            assert(charts.deep_view() =~= mapped.filter(chart_nonempty()));
        }
        j += 1;
    }
    proof {
        assert(cfg.charts@.take(nc as int) =~= cfg.charts@);
    }
    let source = source_id.to_owned();
    let r = DashboardSkeleton { source_id: source, tiles, charts };
    proof {
        assert(r.deep_view() =~= skeleton_of(source_id@, cfg, probes@));
    }
    r
}


// ---- planned per-widget work ----

/// One planned tile query: the widget id and the resolved query.
pub struct TileJob {
    pub id: String,
    pub query: String,
}

/// Mathematical image of a tile job.
#[verifier::ext_equal]
pub ghost struct TileJobV {
    pub id: Seq<char>,
    pub query: Seq<char>,
}

impl DeepView for TileJob {
    type V = TileJobV;

    open spec fn deep_view(&self) -> TileJobV {
        TileJobV { id: self.id@, query: self.query@ }
    }
}

/// One planned series query.
pub struct SeriesJob {
    pub chart_id: String,
    pub series_id: String,
    pub query: String,
}

/// Mathematical image of a series job.
#[verifier::ext_equal]
pub ghost struct SeriesJobV {
    pub chart_id: Seq<char>,
    pub series_id: Seq<char>,
    pub query: Seq<char>,
}

impl DeepView for SeriesJob {
    type V = SeriesJobV;

    open spec fn deep_view(&self) -> SeriesJobV {
        SeriesJobV { chart_id: self.chart_id@, series_id: self.series_id@, query: self.query@ }
    }
}

/// Everything decided up front for one request: the skeleton to emit
/// first, the queries to fan out, and the widget count for the
/// completion fence.
pub struct StreamPlan {
    pub skeleton: DashboardSkeleton,
    pub tile_jobs: Vec<TileJob>,
    pub series_jobs: Vec<SeriesJob>,
    pub total_widgets: u64,
}

/// The characters of the `source` template key.
pub open spec fn source_key_chars() -> Seq<char> {
    seq!['s', 'o', 'u', 'r', 'c', 'e']
}

/// The characters of the `hours` template key.
pub open spec fn hours_key_chars() -> Seq<char> {
    seq!['h', 'o', 'u', 'r', 's']
}

/// The variables every widget query is resolved with: the source id
/// and the window in hours.
pub open spec fn std_vars(source_id: Seq<char>, hours: int) -> Seq<(Seq<char>, Seq<char>)> {
    seq![(source_key_chars(), source_id), (hours_key_chars(), int_str(hours))]
}

/// The tile jobs planned for a catalog: one per available tile, in
/// catalog order, with the resolved query.
pub open spec fn tile_jobs_of(
    ts: Seq<TileConfig>,
    vars: Seq<(Seq<char>, Seq<char>)>,
    probes: Seq<ProbeMetadata>,
) -> Seq<TileJobV>
    decreases ts.len(),
{
    if ts.len() == 0 {
        Seq::empty()
    } else {
        tile_jobs_of(ts.drop_last(), vars, probes) + if available(ts.last().query@, probes) {
            seq![TileJobV { id: ts.last().id@, query: resolve(ts.last().query@, vars) }]
        } else {
            Seq::empty()
        }
    }
}

/// The series jobs planned for one chart: one per available series.
pub open spec fn series_jobs_for(
    chart_id: Seq<char>,
    ss: Seq<SeriesConfig>,
    vars: Seq<(Seq<char>, Seq<char>)>,
    probes: Seq<ProbeMetadata>,
) -> Seq<SeriesJobV>
    decreases ss.len(),
{
    if ss.len() == 0 {
        Seq::empty()
    } else {
        series_jobs_for(chart_id, ss.drop_last(), vars, probes) + if available(
            ss.last().query@,
            probes,
        ) {
            seq![
                SeriesJobV {
                    chart_id: chart_id,
                    series_id: ss.last().id@,
                    query: resolve(ss.last().query@, vars),
                },
            ]
        } else {
            Seq::empty()
        }
    }
}

/// The series jobs planned for the whole catalog, chart by chart.
pub open spec fn series_jobs_of(
    cs: Seq<ChartConfig>,
    vars: Seq<(Seq<char>, Seq<char>)>,
    probes: Seq<ProbeMetadata>,
) -> Seq<SeriesJobV>
    decreases cs.len(),
{
    if cs.len() == 0 {
        Seq::empty()
    } else {
        series_jobs_of(cs.drop_last(), vars, probes) + series_jobs_for(
            cs.last().id@,
            cs.last().series@,
            vars,
            probes,
        )
    }
}

/// Builds the variable list for a request.
fn build_vars(source_id: &str, hours: i32) -> (r: Vec<(String, String)>)
    ensures
        vars_view(r@) == std_vars(source_id@, hours as int),
{
    let mut vars: Vec<(String, String)> = Vec::new();
    vars.push(("source".to_owned(), source_id.to_owned()));
    vars.push(("hours".to_owned(), i64_to_string(hours as i64)));
    proof {
        reveal_strlit("source");
        reveal_strlit("hours");
        assert("source"@ =~= source_key_chars());
        assert("hours"@ =~= hours_key_chars());
        assert(vars_view(vars@) =~= std_vars(source_id@, hours as int));
    }
    vars
}

/// Plans one request: the skeleton, one job per available tile and
/// per available chart series — so the dispatched set is exactly the
/// announced set — and the widget count for the completion fence.
#[verifier::rlimit(100)]
#[verifier::loop_isolation(false)]
pub fn plan_stream(cfg: &WidgetsConfig, source_id: &str, hours: i32, probes: &Vec<ProbeMetadata>)
    -> (r: StreamPlan)
    ensures
        r.skeleton.deep_view() == skeleton_of(source_id@, cfg, probes@),
        r.tile_jobs.deep_view() == tile_jobs_of(
            cfg.tiles@,
            std_vars(source_id@, hours as int),
            probes@,
        ),
        r.series_jobs.deep_view() == series_jobs_of(
            cfg.charts@,
            std_vars(source_id@, hours as int),
            probes@,
        ),
        r.total_widgets as int == ({
            let sk = skeleton_of(source_id@, cfg, probes@);
            if sk.tiles.len() + sk.charts.len() <= u64::MAX {
                (sk.tiles.len() + sk.charts.len()) as int
            } else {
                u64::MAX as int
            }
        }),
{
    let skeleton = build_skeleton(source_id, cfg, probes);
    let vars = build_vars(source_id, hours);
    let ghost vv = std_vars(source_id@, hours as int);
    let nt: usize = cfg.tiles.len();
    let mut tile_jobs: Vec<TileJob> = Vec::new();
    proof {
        assert(cfg.tiles@.take(0) =~= Seq::<TileConfig>::empty());
        assert(tile_jobs.deep_view() =~= tile_jobs_of(cfg.tiles@.take(0), vv, probes@));
    }
    let mut i: usize = 0;
    while i < nt
        invariant
            i <= nt,
            vars_view(vars@) == vv,
            tile_jobs.deep_view() == tile_jobs_of(cfg.tiles@.take(i as int), vv, probes@),
        decreases nt - i,
    {
        let ghost old_jobs = tile_jobs.deep_view();
        if is_probe_available(cfg.tiles[i].query.as_str(), probes) {
            let q = prepare_query(cfg.tiles[i].query.as_str(), &vars);
            let job = TileJob { id: cfg.tiles[i].id.clone(), query: q };
            proof {
                assert(job.deep_view() =~= (TileJobV {
                    id: cfg.tiles@[i as int].id@,
                    query: resolve(cfg.tiles@[i as int].query@, vv),
                }));
            }
            tile_jobs.push(job);
            proof {
                assert(tile_jobs.deep_view() =~= old_jobs.push(
                    TileJobV {
                        id: cfg.tiles@[i as int].id@,
                        query: resolve(cfg.tiles@[i as int].query@, vv),
                    },
                ));
            }
        }
        proof {
            let t = cfg.tiles@.take(i + 1);
            assert(t.drop_last() =~= cfg.tiles@.take(i as int));
            assert(t.last() == cfg.tiles@[i as int]);
            assert(tile_jobs.deep_view() =~= tile_jobs_of(t, vv, probes@));
        }
        i += 1;
    }
    proof {
        assert(cfg.tiles@.take(nt as int) =~= cfg.tiles@);
    }
    let nc: usize = cfg.charts.len();
    let mut series_jobs: Vec<SeriesJob> = Vec::new();
    proof {
        assert(cfg.charts@.take(0) =~= Seq::<ChartConfig>::empty());
        assert(series_jobs.deep_view() =~= series_jobs_of(cfg.charts@.take(0), vv, probes@));
    }
    let mut j: usize = 0;
    while j < nc
        invariant
            j <= nc,
            vars_view(vars@) == vv,
            series_jobs.deep_view() == series_jobs_of(cfg.charts@.take(j as int), vv, probes@),
        decreases nc - j,
    {
        let ghost cid = cfg.charts@[j as int].id@;
        let ghost ss = cfg.charts@[j as int].series@;
        let ns: usize = cfg.charts[j].series.len();
        let ghost base = series_jobs.deep_view();
        proof {
            assert(ss.take(0) =~= Seq::<SeriesConfig>::empty());
            assert(base + Seq::<SeriesJobV>::empty() =~= base);
            assert(series_jobs_for(cid, ss.take(0), vv, probes@) =~= Seq::<SeriesJobV>::empty());
            assert(series_jobs.deep_view() =~= base + series_jobs_for(cid, ss.take(0), vv, probes@));
        }
        let mut k: usize = 0;
        while k < ns
            invariant
                k <= ns,
                ns == ss.len(),
                cid == cfg.charts@[j as int].id@,
                ss == cfg.charts@[j as int].series@,
                vars_view(vars@) == vv,
                series_jobs.deep_view() == base + series_jobs_for(cid, ss.take(k as int), vv, probes@),
            decreases ns - k,
        {
            let ghost old_jobs = series_jobs.deep_view();
            if is_probe_available(cfg.charts[j].series[k].query.as_str(), probes) {
                let q = prepare_query(cfg.charts[j].series[k].query.as_str(), &vars);
                let job = SeriesJob {
                    chart_id: cfg.charts[j].id.clone(),
                    series_id: cfg.charts[j].series[k].id.clone(),
                    query: q,
                };
                proof {
                    assert(job.deep_view() =~= (SeriesJobV {
                        chart_id: cid,
                        series_id: ss[k as int].id@,
                        query: resolve(ss[k as int].query@, vv),
                    }));
                }
                series_jobs.push(job);
                proof {
                    assert(series_jobs.deep_view() =~= old_jobs.push(
                        SeriesJobV {
                            chart_id: cid,
                            series_id: ss[k as int].id@,
                            query: resolve(ss[k as int].query@, vv),
                        },
                    ));
                }
            }
            proof {
                let t = ss.take(k + 1);
                assert(t.drop_last() =~= ss.take(k as int));
                assert(t.last() == ss[k as int]);
                assert(series_jobs.deep_view() =~= base + series_jobs_for(cid, t, vv, probes@));
            }
            k += 1;
        }
        proof {
            assert(ss.take(ns as int) =~= ss);
            let t = cfg.charts@.take(j + 1);
            assert(t.drop_last() =~= cfg.charts@.take(j as int));
            assert(t.last() == cfg.charts@[j as int]);
            assert(series_jobs.deep_view() =~= series_jobs_of(t, vv, probes@));
        }
        j += 1;
    }
    proof {
        assert(cfg.charts@.take(nc as int) =~= cfg.charts@);
    }
    let a: u64 = skeleton.tiles.len() as u64;
    let b: u64 = skeleton.charts.len() as u64;
    let total_widgets: u64 = if b <= u64::MAX - a {
        a + b
    } else {
        u64::MAX
    };
    StreamPlan { skeleton, tile_jobs, series_jobs, total_widgets }
}

// ---- turning query outcomes into messages ----

/// Builds the update for one tile job: a present value yields a tile
/// update carrying the job's id and that value; an empty result — or
/// a failed query, which the caller treats the same way — yields
/// nothing.
pub fn tile_outcome(job: &TileJob, value: Option<i64>) -> (r: Option<StreamMessage>)
    ensures
        match value {
            Some(v) => r matches Some(m) && m.deep_view() == MessageV::Tile(
                TileUpdateV { id: job.id@, value: v },
            ),
            None => r is None,
        },
{
    match value {
        Some(v) => Some(StreamMessage::Tile(TileUpdate { id: job.id.clone(), value: v })),
        None => None,
    }
}

/// Builds the update for one series job: a non-empty point sequence
/// is bounded to `max_points` by downsampling and wrapped in a chart
/// update carrying exactly this one series; an empty result yields
/// nothing.
pub fn series_outcome(job: &SeriesJob, points: Vec<TimeSeriesPoint>, max_points: usize) -> (r:
    Option<StreamMessage>)
    ensures
        points@.len() == 0 ==> r is None,
        points@.len() > 0 ==> (r matches Some(m) && m.deep_view() == MessageV::Chart(
            ChartUpdateV {
                chart_id: job.chart_id@,
                series: SeriesUpdateV {
                    id: job.series_id@,
                    points: spec_downsample(points@, max_points as int),
                },
            },
        )),
{
    if points.len() == 0 {
        return None;
    }
    let reduced = downsample(points, max_points);
    Some(
        StreamMessage::Chart(
            ChartUpdate {
                chart_id: job.chart_id.clone(),
                series: SeriesUpdate { id: job.series_id.clone(), points: reduced },
            },
        ),
    )
}

/// Builds the completion fence message.
pub fn completion_message(total_widgets: u64, duration_ms: i64) -> (r: StreamMessage)
    ensures
        r.deep_view() == MessageV::Complete(CompletionEvent { total_widgets, duration_ms }),
{
    StreamMessage::Complete(CompletionEvent { total_widgets, duration_ms })
}

// ---- the request lifecycle ----

/// The states a streamed request moves through.
#[derive(Clone, Copy, PartialEq, Eq, Structural, Debug)]
pub enum StreamPhase {
    Init,
    SkeletonSent,
    Streaming,
    Completed,
    Aborted,
}

/// What can happen to a streamed request.
#[derive(Clone, Copy, PartialEq, Eq, Structural, Debug)]
pub enum StreamEvent {
    SkeletonEmitted,
    UpdatesDispatched,
    FenceElapsed,
    ConsumerGone,
}

/// The lifecycle: the skeleton is emitted exactly once, before any
/// data; the fence completes a streaming request; a disconnect aborts
/// any request that has not completed.
pub open spec fn phase_after(p: StreamPhase, e: StreamEvent) -> StreamPhase {
    match (p, e) {
        (StreamPhase::Init, StreamEvent::SkeletonEmitted) => StreamPhase::SkeletonSent,
        (StreamPhase::SkeletonSent, StreamEvent::UpdatesDispatched) => StreamPhase::Streaming,
        (StreamPhase::Streaming, StreamEvent::FenceElapsed) => StreamPhase::Completed,
        (_, StreamEvent::ConsumerGone) => if p is Completed {
            StreamPhase::Completed
        } else {
            StreamPhase::Aborted
        },
        _ => p,
    }
}

impl StreamPhase {
    /// Takes one lifecycle step.
    pub fn advance(self, e: StreamEvent) -> (r: StreamPhase)
        ensures
            r == phase_after(self, e),
    {
        match (self, e) {
            (StreamPhase::Init, StreamEvent::SkeletonEmitted) => StreamPhase::SkeletonSent,
            (StreamPhase::SkeletonSent, StreamEvent::UpdatesDispatched) => StreamPhase::Streaming,
            (StreamPhase::Streaming, StreamEvent::FenceElapsed) => StreamPhase::Completed,
            (StreamPhase::Completed, StreamEvent::ConsumerGone) => StreamPhase::Completed,
            (_, StreamEvent::ConsumerGone) => StreamPhase::Aborted,
            (p, _) => p,
        }
    }
}

/// The request parameters of the streaming endpoint.
pub struct RangeQuery {
    pub hours: Option<i32>,
}

/// The window a request selects: the given hours, or 6 when omitted.
pub fn effective_hours(q: &RangeQuery) -> (r: i32)
    ensures
        match q.hours {
            Some(h) => r == h,
            None => r == 6,
        },
{
    match q.hours {
        Some(h) => h,
        None => 6,
    }
}


// ---- no update outside the skeleton ----

proof fn lemma_tile_jobs_match_skeleton(
    ts: Seq<TileConfig>,
    vars: Seq<(Seq<char>, Seq<char>)>,
    probes: Seq<ProbeMetadata>,
)
    ensures
        tile_jobs_of(ts, vars, probes).len() == ts.filter(tile_avail(probes)).len(),
        forall|j: int|
            0 <= j < tile_jobs_of(ts, vars, probes).len() ==> #[trigger] tile_jobs_of(
                ts,
                vars,
                probes,
            )[j].id == ts.filter(tile_avail(probes)).map_values(tile_to_skel())[j].id,
    decreases ts.len(),
{
    reveal(Seq::filter);
    if ts.len() == 0 {
    } else {
        lemma_tile_jobs_match_skeleton(ts.drop_last(), vars, probes);
    }
}

proof fn lemma_series_jobs_for_shape(
    chart_id: Seq<char>,
    ss: Seq<SeriesConfig>,
    vars: Seq<(Seq<char>, Seq<char>)>,
    probes: Seq<ProbeMetadata>,
)
    ensures
        series_jobs_for(chart_id, ss, vars, probes).len() == ss.filter(series_avail(probes)).len(),
        forall|j: int|
            0 <= j < series_jobs_for(chart_id, ss, vars, probes).len() ==> #[trigger] series_jobs_for(
                chart_id,
                ss,
                vars,
                probes,
            )[j].chart_id == chart_id,
    decreases ss.len(),
{
    reveal(Seq::filter);
    if ss.len() == 0 {
    } else {
        lemma_series_jobs_for_shape(chart_id, ss.drop_last(), vars, probes);
    }
}

/// Some announced chart carries this id.
pub open spec fn chart_announced(skels: Seq<ChartSkelV>, id: Seq<char>) -> bool {
    exists|k: int| 0 <= k < skels.len() && skels[k].id == id
}

/// Some announced tile carries this id.
pub open spec fn tile_announced(skels: Seq<TileSkelV>, id: Seq<char>) -> bool {
    exists|k: int| 0 <= k < skels.len() && skels[k].id == id
}

#[verifier::rlimit(100)]
proof fn lemma_series_jobs_within_charts(
    cs: Seq<ChartConfig>,
    vars: Seq<(Seq<char>, Seq<char>)>,
    probes: Seq<ProbeMetadata>,
)
    ensures
        forall|j: int|
            0 <= j < series_jobs_of(cs, vars, probes).len() ==> chart_announced(
                cs.map_values(chart_to_skel(probes)).filter(chart_nonempty()),
                #[trigger] series_jobs_of(cs, vars, probes)[j].chart_id,
            ),
    decreases cs.len(),
{
    reveal(Seq::filter);
    if cs.len() == 0 {
    } else {
        let jobs = series_jobs_of(cs, vars, probes);
        let pre = series_jobs_of(cs.drop_last(), vars, probes);
        let tail = series_jobs_for(cs.last().id@, cs.last().series@, vars, probes);
        let skels = cs.map_values(chart_to_skel(probes)).filter(chart_nonempty());
        let skels_pre = cs.drop_last().map_values(chart_to_skel(probes)).filter(chart_nonempty());
        let mapped = cs.map_values(chart_to_skel(probes));
        assert(mapped.drop_last() =~= cs.drop_last().map_values(chart_to_skel(probes)));
        assert(mapped.last() == chart_to_skel(probes)(cs.last()));
        lemma_series_jobs_within_charts(cs.drop_last(), vars, probes);
        lemma_series_jobs_for_shape(cs.last().id@, cs.last().series@, vars, probes);
        // the announced charts extend those of the shorter catalog
        assert(skels == if chart_nonempty()(mapped.last()) {
            skels_pre.push(mapped.last())
        } else {
            skels_pre
        });
        assert forall|j: int| 0 <= j < jobs.len() implies chart_announced(
            skels,
            #[trigger] jobs[j].chart_id,
        ) by {
            if j < pre.len() {
                assert(jobs[j] == pre[j]);
                assert(chart_announced(skels_pre, pre[j].chart_id));
                let k = choose|k: int| 0 <= k < skels_pre.len() && skels_pre[k].id == pre[j].chart_id;
                assert(0 <= k < skels.len() && skels[k].id == jobs[j].chart_id);
            } else {
                // this job comes from the last chart, which kept at
                // least one series and is therefore announced
                assert(jobs[j] == tail[j - pre.len()]);
                assert(tail[j - pre.len()].chart_id == cs.last().id@);
                assert(cs.last().series@.filter(series_avail(probes)).len() > 0);
                assert(chart_to_skel(probes)(cs.last()).series.len() > 0);
                assert(chart_nonempty()(mapped.last()));
                let k = skels.len() - 1;
                assert(0 <= k < skels.len() && skels[k].id == jobs[j].chart_id);
            }
        }
    }
}

/// No update for a widget the skeleton does not announce: every
/// planned tile job names an announced tile, and every planned series
/// job names an announced chart.
#[verifier::rlimit(100)]
pub proof fn lemma_plan_within_skeleton(
    cfg: &WidgetsConfig,
    source_id: Seq<char>,
    hours: int,
    probes: Seq<ProbeMetadata>,
)
    ensures
        forall|j: int|
            0 <= j < tile_jobs_of(cfg.tiles@, std_vars(source_id, hours), probes).len()
                ==> tile_announced(
                skeleton_of(source_id, cfg, probes).tiles,
                #[trigger] tile_jobs_of(cfg.tiles@, std_vars(source_id, hours), probes)[j].id,
            ),
        forall|j: int|
            0 <= j < series_jobs_of(cfg.charts@, std_vars(source_id, hours), probes).len()
                ==> chart_announced(
                skeleton_of(source_id, cfg, probes).charts,
                #[trigger] series_jobs_of(cfg.charts@, std_vars(source_id, hours), probes)[j].chart_id,
            ),
{
    let sk = skeleton_of(source_id, cfg, probes);
    let vars = std_vars(source_id, hours);
    let tjobs = tile_jobs_of(cfg.tiles@, vars, probes);
    lemma_tile_jobs_match_skeleton(cfg.tiles@, vars, probes);
    assert forall|j: int| 0 <= j < tjobs.len() implies tile_announced(
        sk.tiles,
        #[trigger] tjobs[j].id,
    ) by {
        assert(0 <= j < sk.tiles.len() && sk.tiles[j].id == tjobs[j].id);
    }
    lemma_series_jobs_within_charts(cfg.charts@, vars, probes);
}

} // verus!
