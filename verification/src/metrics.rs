//! Quotas as OpenMetrics text.

use vstd::prelude::*;

use crate::quota::{
    all_quota_statuses, status_list, status_views, QuotaState, QuotaStatus, StatusView,
};
use crate::text::{decimal, join, joined, push_decimal, texts};

verus! {

/// A quantity that is exported for each database.
#[derive(Clone, Copy, Debug, PartialEq, Eq, Structural)]
pub enum Gauge {
    /// The size in bytes.
    Size,
    /// The limit in bytes.
    Limit,
    /// 1 where writes are blocked, else 0.
    OverLimit,
}

/// The two comment lines above the samples of a gauge.
pub open spec fn heading(gauge: Gauge) -> Seq<char> {
    match gauge {
        Gauge::Size => "# HELP pgdog_db_size_bytes Current database size in bytes\n"@
            + "# TYPE pgdog_db_size_bytes gauge\n"@,
        Gauge::Limit =>
        "# HELP pgdog_db_size_limit_bytes Configured maximum database size in bytes\n"@
            + "# TYPE pgdog_db_size_limit_bytes gauge\n"@,
        Gauge::OverLimit =>
        "# HELP pgdog_db_over_limit Whether the database exceeds its size quota (1=over, 0=ok)\n"@
            + "# TYPE pgdog_db_over_limit gauge\n"@,
    }
}

/// The name of a gauge, up to the name of the database.
pub open spec fn label(gauge: Gauge) -> Seq<char> {
    match gauge {
        Gauge::Size => "pgdog_db_size_bytes{database=\""@,
        Gauge::Limit => "pgdog_db_size_limit_bytes{database=\""@,
        Gauge::OverLimit => "pgdog_db_over_limit{database=\""@,
    }
}

/// What a gauge says of a database.
pub open spec fn reading(gauge: Gauge, status: StatusView) -> nat {
    match gauge {
        Gauge::Size => status.current_size as nat,
        Gauge::Limit => status.max_size as nat,
        Gauge::OverLimit => if status.over_limit {
            1
        } else {
            0
        },
    }
}

/// The line of a gauge for one database.
pub open spec fn sample(gauge: Gauge, status: StatusView) -> Seq<char> {
    label(gauge) + status.database + "\"} "@ + decimal(reading(gauge, status)) + "\n"@
}

/// The lines of a gauge for all databases.
pub open spec fn samples(gauge: Gauge, list: Seq<StatusView>) -> Seq<char>
    decreases list.len(),
{
    if list.len() == 0 {
        Seq::empty()
    } else {
        samples(gauge, list.drop_last()) + sample(gauge, list.last())
    }
}

/// The text that is exported for the databases in `list`: none without
/// databases, else one block for each gauge.
pub open spec fn metrics_text(list: Seq<StatusView>) -> Seq<char> {
    if list.len() == 0 {
        Seq::empty()
    } else {
        heading(Gauge::Size) + samples(Gauge::Size, list) + heading(Gauge::Limit) + samples(
            Gauge::Limit,
            list,
        ) + heading(Gauge::OverLimit) + samples(Gauge::OverLimit, list)
    }
}

fn push_heading(out: &mut String, gauge: Gauge)
    ensures
        final(out)@ == old(out)@ + heading(gauge),
{
    match gauge {
        Gauge::Size => {
            out.append("# HELP pgdog_db_size_bytes Current database size in bytes\n");
            out.append("# TYPE pgdog_db_size_bytes gauge\n");
        },
        Gauge::Limit => {
            out.append(
                "# HELP pgdog_db_size_limit_bytes Configured maximum database size in bytes\n",
            );
            out.append("# TYPE pgdog_db_size_limit_bytes gauge\n");
        },
        Gauge::OverLimit => {
            out.append(
                "# HELP pgdog_db_over_limit Whether the database exceeds its size quota (1=over, 0=ok)\n",
            );
            out.append("# TYPE pgdog_db_over_limit gauge\n");
        },
    }
    assert(out@ == old(out)@ + heading(gauge));
}

fn push_sample(out: &mut String, gauge: Gauge, status: &QuotaStatus)
    ensures
        final(out)@ == old(out)@ + sample(gauge, status@),
{
    match gauge {
        Gauge::Size => {
            out.append("pgdog_db_size_bytes{database=\"");
        },
        Gauge::Limit => {
            out.append("pgdog_db_size_limit_bytes{database=\"");
        },
        Gauge::OverLimit => {
            out.append("pgdog_db_over_limit{database=\"");
        },
    }
    out.append(status.database.as_str());
    out.append("\"} ");
    let value: u64 = match gauge {
        Gauge::Size => status.current_size,
        Gauge::Limit => status.max_size,
        Gauge::OverLimit => if status.over_limit {
            1
        } else {
            0
        },
    };
    push_decimal(out, value);
    out.append("\n");
    assert(out@ == old(out)@ + sample(gauge, status@));
}

fn push_gauge(out: &mut String, gauge: Gauge, list: &Vec<QuotaStatus>)
    ensures
        final(out)@ == old(out)@ + heading(gauge) + samples(gauge, status_views(list@)),
{
    push_heading(out, gauge);
    let ghost start = out@;
    let ghost all = status_views(list@);
    let mut i: usize = 0;
    assert(start == start + samples(gauge, all.take(0)));
    while i < list.len()
        invariant
            i <= list.len(),
            all == status_views(list@),
            out@ == start + samples(gauge, all.take(i as int)),
        decreases list.len() - i,
    {
        let ghost before = out@;
        push_sample(out, gauge, &list[i]);
        proof {
            assert(all.take(i + 1).drop_last() == all.take(i as int));
            assert(all.take(i + 1).last() == list@[i as int]@);
            assert(before + sample(gauge, list@[i as int]@) == start + samples(
                gauge,
                all.take(i + 1),
            ));
        }
        i = i + 1;
    }
    assert(all.take(i as int) == all);
}

/// The quota metrics of all databases with a status.
pub fn quota_metrics(state: &QuotaState) -> (r: String)
    ensures
        r@ == metrics_text(status_list(*state)),
{
    let statuses: Vec<QuotaStatus> = all_quota_statuses(state);
    assert(status_views(statuses@).len() == statuses@.len());
    if statuses.len() == 0 {
        return String::new();
    }
    let mut out: String = String::new();
    push_gauge(&mut out, Gauge::Size, &statuses);
    push_gauge(&mut out, Gauge::Limit, &statuses);
    push_gauge(&mut out, Gauge::OverLimit, &statuses);
    assert(out@ == metrics_text(status_list(*state)));
    out
}

/// The content type of the metrics page.
pub fn metrics_content_type() -> (r: &'static str)
    ensures
        r@ == "text/plain; version=0.0.4; charset=utf-8"@,
{
    "text/plain; version=0.0.4; charset=utf-8"
}

/// The text of the whole metrics page: its sections, one below the other. The
/// parts of two of them are joined line by line.
pub fn metrics_page(
    clients: &str,
    pools: &str,
    mirror_stats: &Vec<String>,
    query_cache: &Vec<String>,
    two_pc: &str,
    quota: &str,
) -> (r: String)
    ensures
        r@ == clients@ + "\n"@ + pools@ + "\n"@ + joined(texts(mirror_stats@), "\n"@) + "\n"@
            + joined(texts(query_cache@), "\n"@) + "\n"@ + two_pc@ + "\n"@ + quota@,
{
    let mut page: String = clients.to_owned();
    page.append("\n");
    page.append(pools);
    page.append("\n");
    page.append(join(mirror_stats, "\n").as_str());
    page.append("\n");
    page.append(join(query_cache, "\n").as_str());
    page.append("\n");
    page.append(two_pc);
    page.append("\n");
    page.append(quota);
    page
}

// ── Laws ────────────────────────────────────────────────────────────────

/// Each gauge has a line for each database, with the name of the database and
/// the size, the limit, or whether it is over it, of that database.
pub proof fn samples_by_fields(status: StatusView)
    ensures
        sample(Gauge::Size, status) == "pgdog_db_size_bytes{database=\""@ + status.database
            + "\"} "@ + decimal(status.current_size as nat) + "\n"@,
        sample(Gauge::Limit, status) == "pgdog_db_size_limit_bytes{database=\""@
            + status.database + "\"} "@ + decimal(status.max_size as nat) + "\n"@,
        status.over_limit ==> sample(Gauge::OverLimit, status)
            == "pgdog_db_over_limit{database=\""@ + status.database + "\"} "@ + decimal(1)
            + "\n"@,
        !status.over_limit ==> sample(Gauge::OverLimit, status)
            == "pgdog_db_over_limit{database=\""@ + status.database + "\"} "@ + decimal(0)
            + "\n"@,
{
}

/// The lines of a gauge are those of the databases, each once and in order.
pub proof fn samples_add_up(gauge: Gauge, x: Seq<StatusView>, y: Seq<StatusView>)
    ensures
        x.len() == 0 ==> samples(gauge, x) == Seq::<char>::empty(),
        x.len() == 1 ==> samples(gauge, x) == sample(gauge, x[0]),
        samples(gauge, x + y) == samples(gauge, x) + samples(gauge, y),
    decreases y.len(),
{
    if x.len() == 1 {
        assert(x.drop_last() == Seq::<StatusView>::empty());
        assert(samples(gauge, Seq::<StatusView>::empty()) == Seq::<char>::empty());
        assert(Seq::<char>::empty() + sample(gauge, x[0]) == sample(gauge, x[0]));
    }
    if y.len() == 0 {
        assert(x + y == x);
        assert(samples(gauge, x) + samples(gauge, y) == samples(gauge, x));
    } else {
        let front = y.drop_last();
        samples_add_up(gauge, x, front);
        assert((x + y).drop_last() == x + front);
        assert((x + y).last() == y.last());
        assert(samples(gauge, x) + samples(gauge, front) + sample(gauge, y.last()) == samples(
            gauge,
            x,
        ) + (samples(gauge, front) + sample(gauge, y.last())));
    }
}

/// Without databases nothing is exported; else three blocks of two comment
/// lines and the lines of one gauge each: sizes, limits, and which databases
/// are over.
pub proof fn metrics_by_blocks(list: Seq<StatusView>)
    ensures
        list.len() == 0 ==> metrics_text(list) == Seq::<char>::empty(),
        list.len() > 0 ==> metrics_text(list)
            == "# HELP pgdog_db_size_bytes Current database size in bytes\n"@
            + "# TYPE pgdog_db_size_bytes gauge\n"@ + samples(Gauge::Size, list)
            + "# HELP pgdog_db_size_limit_bytes Configured maximum database size in bytes\n"@
            + "# TYPE pgdog_db_size_limit_bytes gauge\n"@ + samples(Gauge::Limit, list)
            + "# HELP pgdog_db_over_limit Whether the database exceeds its size quota (1=over, 0=ok)\n"@
            + "# TYPE pgdog_db_over_limit gauge\n"@ + samples(Gauge::OverLimit, list),
{
    if list.len() > 0 {
        assert(metrics_text(list)
            =~= "# HELP pgdog_db_size_bytes Current database size in bytes\n"@
            + "# TYPE pgdog_db_size_bytes gauge\n"@ + samples(Gauge::Size, list)
            + "# HELP pgdog_db_size_limit_bytes Configured maximum database size in bytes\n"@
            + "# TYPE pgdog_db_size_limit_bytes gauge\n"@ + samples(Gauge::Limit, list)
            + "# HELP pgdog_db_over_limit Whether the database exceeds its size quota (1=over, 0=ok)\n"@
            + "# TYPE pgdog_db_over_limit gauge\n"@ + samples(Gauge::OverLimit, list));
    }
}

} // verus!
