use vstd::prelude::*;

use crate::record::Instrument;
use crate::snapshot::{lookup, Snapshot};
use crate::text::{decimal, decimal_text, push_updated_line, updated_line};

verus! {

/// The view of a snapshot that may be missing.
pub open spec fn snapshot_view(s: Option<&Snapshot>) -> Option<Seq<Instrument>> {
    match s {
        Some(x) => Some(x@),
        None => None,
    }
}

/// The first `n` entries of `s`, or all of them if it is shorter.
pub open spec fn top_n<T>(s: Seq<T>, n: nat) -> Seq<T> {
    if n <= s.len() {
        s.take(n as int)
    } else {
        s
    }
}

/// The last `n` entries of `s` (all of them if it is shorter), last first.
pub open spec fn bottom_n<T>(s: Seq<T>, n: nat) -> Seq<T> {
    let m = if n <= s.len() {
        n as int
    } else {
        s.len() as int
    };
    Seq::new(m as nat, |i: int| s[s.len() - 1 - i])
}

/// The relative performance that `past` recorded for `key`, or `?` when
/// there is no such snapshot or it does not hold the key.
pub open spec fn past_rel_text(past: Option<Seq<Instrument>>, key: u64) -> Seq<char> {
    match past {
        Some(p) => match lookup(p, key) {
            Some(r) => r.performance_rel.text@,
            None => "?"@,
        },
        None => "?"@,
    }
}

/// One line of the gainers or losers list, with the three comparison
/// fields given; `tag` is written before each window label.
pub open spec fn instrument_line_with(
    r: Instrument,
    short: Seq<char>,
    long: Seq<char>,
    oldest: Seq<char>,
    tag: Seq<char>,
) -> Seq<char> {
    "`* "@ + r.name@ + " ("@ + r.performance_rel.text@ + "% ["@ + r.performance_abs.text@
        + "€]) ("@ + short + "% "@ + tag + "1h, "@ + long + "% "@ + tag + "2h, "@ + oldest
        + "% "@ + tag + "4h)`\n"@
}

/// One line of the gainers or losers list, compared with the snapshots of
/// the three windows.
pub open spec fn instrument_line(
    r: Instrument,
    short: Option<Seq<Instrument>>,
    long: Option<Seq<Instrument>>,
    oldest: Option<Seq<Instrument>>,
    tag: Seq<char>,
) -> Seq<char> {
    instrument_line_with(
        r,
        past_rel_text(short, r.key),
        past_rel_text(long, r.key),
        past_rel_text(oldest, r.key),
        tag,
    )
}

/// Without a snapshot for the short window, a line still renders, with `?`
/// in that field and the other fields as they are.
pub proof fn lemma_missing_short_window(
    r: Instrument,
    long: Option<Seq<Instrument>>,
    oldest: Option<Seq<Instrument>>,
    tag: Seq<char>,
)
    ensures
        instrument_line(r, None, long, oldest, tag) == instrument_line_with(
            r,
            "?"@,
            past_rel_text(long, r.key),
            past_rel_text(oldest, r.key),
            tag,
        ),
{
}

/// The lines of `rs`, one after the other.
pub open spec fn instrument_lines(
    rs: Seq<Instrument>,
    short: Option<Seq<Instrument>>,
    long: Option<Seq<Instrument>>,
    oldest: Option<Seq<Instrument>>,
    tag: Seq<char>,
) -> Seq<char>
    decreases rs.len(),
{
    if rs.len() == 0 {
        Seq::empty()
    } else {
        instrument_lines(rs.drop_last(), short, long, oldest, tag) + instrument_line(
            rs.last(),
            short,
            long,
            oldest,
            tag,
        )
    }
}

/// The gainers and losers report of `current`, compared with the snapshots
/// of the short and long windows and the one that just left the history.
pub open spec fn instrument_report_text(
    current: Seq<Instrument>,
    short: Option<Seq<Instrument>>,
    long: Option<Seq<Instrument>>,
    oldest: Option<Seq<Instrument>>,
    n_top: nat,
    n_bottom: nat,
    now: nat,
) -> Seq<char> {
    "top "@ + decimal_text(n_top) + " kurse (nach rel. veränderung)\n"@ + instrument_lines(
        top_n(current, n_top),
        short,
        long,
        oldest,
        ""@,
    ) + "\n"@ + "bottom "@ + decimal_text(n_bottom) + " kurse (nach rel. veränderung)\n"@
        + instrument_lines(bottom_n(current, n_bottom), short, long, oldest, "vor "@)
        + updated_line(now)
}

/// The report is reproducible: snapshots with the same contents, the same
/// counts and the same time give the same text, character for character.
pub proof fn lemma_report_reproducible(
    current: Seq<Instrument>,
    current_again: Seq<Instrument>,
    short: Option<Seq<Instrument>>,
    short_again: Option<Seq<Instrument>>,
    long: Option<Seq<Instrument>>,
    long_again: Option<Seq<Instrument>>,
    oldest: Option<Seq<Instrument>>,
    oldest_again: Option<Seq<Instrument>>,
    n_top: nat,
    n_bottom: nat,
    now: nat,
)
    requires
        current =~= current_again,
        short == short_again,
        long == long_again,
        oldest == oldest_again,
    ensures
        instrument_report_text(current, short, long, oldest, n_top, n_bottom, now)
            == instrument_report_text(
            current_again,
            short_again,
            long_again,
            oldest_again,
            n_top,
            n_bottom,
            now,
        ),
{
}

/// The relative performance that `past` recorded for `key`, or `?`.
fn past_rel<'a>(past: Option<&'a Snapshot>, key: u64) -> (r: &'a str)
    ensures
        r@ == past_rel_text(snapshot_view(past), key),
{
    match past {
        Some(p) => match p.get(key) {
            Some(r) => r.performance_rel.text.as_str(),
            None => "?",
        },
        None => "?",
    }
}

fn push_instrument_line(
    s: &mut String,
    r: &Instrument,
    short: Option<&Snapshot>,
    long: Option<&Snapshot>,
    oldest: Option<&Snapshot>,
    tag: &str,
)
    ensures
        final(s)@ == old(s)@ + instrument_line(
            *r,
            snapshot_view(short),
            snapshot_view(long),
            snapshot_view(oldest),
            tag@,
        ),
{
    let mut line = String::from_str("`* ");
    line.append(r.name.as_str());
    line.append(" (");
    line.append(r.performance_rel.text.as_str());
    line.append("% [");
    line.append(r.performance_abs.text.as_str());
    line.append("€]) (");
    line.append(past_rel(short, r.key));
    line.append("% ");
    line.append(tag);
    line.append("1h, ");
    line.append(past_rel(long, r.key));
    line.append("% ");
    line.append(tag);
    line.append("2h, ");
    line.append(past_rel(oldest, r.key));
    line.append("% ");
    line.append(tag);
    line.append("4h)`\n");
    s.append(line.as_str());
}

/// Appends the lines of the first `count` entries of `current`, or, when
/// `from_bottom`, of its last `count` entries, last first.
fn push_instrument_lines(
    s: &mut String,
    current: &Snapshot,
    from_bottom: bool,
    count: usize,
    short: Option<&Snapshot>,
    long: Option<&Snapshot>,
    oldest: Option<&Snapshot>,
    tag: &str,
)
    requires
        count <= current@.len(),
    ensures
        final(s)@ == old(s)@ + instrument_lines(
            if from_bottom {
                bottom_n(current@, count as nat)
            } else {
                top_n(current@, count as nat)
            },
            snapshot_view(short),
            snapshot_view(long),
            snapshot_view(oldest),
            tag@,
        ),
{
    let ghost rs = if from_bottom {
        bottom_n(current@, count as nat)
    } else {
        top_n(current@, count as nat)
    };
    let ghost start = s@;
    let n = current.len();
    let mut i: usize = 0;
    while i < count
        invariant
            count <= n == current@.len(),
            rs.len() == count,
            forall|t: int|
                0 <= t < count ==> rs[t] == if from_bottom {
                    current@[n - 1 - t]
                } else {
                    current@[t]
                },
            i <= count,
            s@ == start + instrument_lines(
                rs.take(i as int),
                snapshot_view(short),
                snapshot_view(long),
                snapshot_view(oldest),
                tag@,
            ),
        decreases count - i,
    {
        let r = if from_bottom {
            current.entry(n - 1 - i)
        } else {
            current.entry(i)
        };
        push_instrument_line(s, r, short, long, oldest, tag);
        proof {
            let sv = snapshot_view(short);
            let lv = snapshot_view(long);
            let ov = snapshot_view(oldest);
            assert(rs.take(i + 1).drop_last() =~= rs.take(i as int));
            vstd::seq_lib::lemma_concat_associative(
                start,
                instrument_lines(rs.take(i as int), sv, lv, ov, tag@),
                instrument_line(*r, sv, lv, ov, tag@),
            );
        }
        i += 1;
    }
    assert(rs.take(count as int) =~= rs);
}

/// Renders the gainers and losers report: the `n_top` best instruments of
/// `current`, then the `n_bottom` worst ones, worst first, each with its
/// relative performance in the snapshots of the short and long windows and
/// in `oldest`, then the time of the update.
pub fn instrument_report(
    current: &Snapshot,
    short: Option<&Snapshot>,
    long: Option<&Snapshot>,
    oldest: Option<&Snapshot>,
    n_top: u64,
    n_bottom: u64,
    now: u64,
) -> (r: String)
    ensures
        r@ == instrument_report_text(
            current@,
            snapshot_view(short),
            snapshot_view(long),
            snapshot_view(oldest),
            n_top as nat,
            n_bottom as nat,
            now as nat,
        ),
{
    let n = current.len();
    let top: usize = if (n as u64) < n_top {
        n
    } else {
        n_top as usize
    };
    let bottom: usize = if (n as u64) < n_bottom {
        n
    } else {
        n_bottom as usize
    };
    let mut s = String::from_str("top ");
    s.append(decimal(n_top).as_str());
    s.append(" kurse (nach rel. veränderung)\n");
    push_instrument_lines(&mut s, current, false, top, short, long, oldest, "");
    s.append("\n");
    s.append("bottom ");
    s.append(decimal(n_bottom).as_str());
    s.append(" kurse (nach rel. veränderung)\n");
    push_instrument_lines(&mut s, current, true, bottom, short, long, oldest, "vor ");
    push_updated_line(&mut s, now);
    proof {
        assert(top_n(current@, top as nat) == top_n(current@, n_top as nat));
        assert(bottom_n(current@, bottom as nat) =~= bottom_n(current@, n_bottom as nat));
    }
    s
}

} // verus!
