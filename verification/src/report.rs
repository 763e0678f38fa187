//! The table of results, its colours and the summary line.

use vstd::prelude::*;

use crate::scan::{count_status, lemma_filter_len_permutation, with_status, PortResult, Status};
use crate::services::{lemma_names_plain, name, service_name};
use crate::text::{
    decimal_string, decimal_text, digit_char, pad_end, pad_start, padded_end, padded_start, spaces,
};

verus! {

/// Green, for open ports.
pub const GREEN: &'static str = "\x1b[32m";

/// Yellow, for filtered ports and an expired wait.
pub const YELLOW: &'static str = "\x1b[33m";

/// Dim, for closed ports.
pub const DIM: &'static str = "\x1b[2m";

/// Bold, for the summary.
pub const BOLD: &'static str = "\x1b[1m";

/// Back to plain text.
pub const RESET: &'static str = "\x1b[0m";

/// Whether output is coloured.
pub struct Style {
    pub enabled: bool,
}

/// `text` in colour `code` when colour is on, else `text` alone.
pub open spec fn wrapped(enabled: bool, code: Seq<char>, text: Seq<char>) -> Seq<char> {
    if enabled {
        code + text + RESET@
    } else {
        text
    }
}

/// The colour of a status.
pub open spec fn status_code(s: Status) -> Seq<char> {
    match s {
        Status::Open => GREEN@,
        Status::Closed => DIM@,
        Status::Filtered => YELLOW@,
    }
}

/// The word for a status.
pub open spec fn status_word(s: Status) -> Seq<char> {
    match s {
        Status::Open => "open"@,
        Status::Closed => "closed"@,
        Status::Filtered => "filtered"@,
    }
}

/// The status column: the word left-aligned in eight characters, coloured.
pub open spec fn status_cell(enabled: bool, s: Status) -> Seq<char> {
    wrapped(enabled, status_code(s), pad_end(status_word(s), 8))
}

impl Style {
    /// Colour is on when standard output is a terminal and `NO_COLOR` is not set
    /// to a non-empty value.
    pub fn detect_from(stdout_is_terminal: bool, no_color_set: bool) -> (r: Style)
        ensures
            r.enabled == (stdout_is_terminal && !no_color_set),
    {
        Style { enabled: stdout_is_terminal && !no_color_set }
    }

    /// `text` in colour `code`, or plain when colour is off.
    pub fn wrap(&self, code: &str, text: &str) -> (r: String)
        ensures
            r@ == wrapped(self.enabled, code@, text@),
    {
        if self.enabled {
            let mut r = code.to_owned();
            r.append(text);
            r.append(RESET);
            r
        } else {
            text.to_owned()
        }
    }

    /// The status column for `status`.
    pub fn status(&self, status: Status) -> (r: String)
        ensures
            r@ == status_cell(self.enabled, status),
    {
        let code = match status {
            Status::Open => GREEN,
            Status::Closed => DIM,
            Status::Filtered => YELLOW,
        };
        let word = padded_end(status.label(), 8);
        self.wrap(code, word.as_str())
    }
}

/// The header of the table.
pub open spec fn header_text() -> Seq<char> {
    pad_start("PORT"@, 5) + "  "@ + pad_end("SERVICE"@, 12) + "  "@ + pad_end("STATUS"@, 8)
        + "  LATENCY"@
}

/// The header of the table.
pub fn header_line() -> (r: String)
    ensures
        r@ == header_text(),
{
    let mut r = padded_start("PORT", 5);
    r.append("  ");
    let service = padded_end("SERVICE", 12);
    r.append(service.as_str());
    r.append("  ");
    let status = padded_end("STATUS", 8);
    r.append(status.as_str());
    r.append("  LATENCY");
    r
}

/// One row: port right-aligned in five characters, service name in twelve, the
/// status column, and the latency as given.
pub open spec fn row_text(enabled: bool, r: PortResult, latency: Seq<char>) -> Seq<char> {
    pad_start(decimal_text(r.port as nat), 5) + "  "@ + pad_end(service_name(r.port), 12) + "  "@
        + status_cell(enabled, r.status) + "  "@ + latency
}

/// The row for one result, given its latency as text.
pub fn render_row(style: &Style, r: &PortResult, latency: &str) -> (line: String)
    ensures
        line@ == row_text(style.enabled, *r, latency@),
{
    let port = decimal_string(r.port as u64);
    let mut line = padded_start(port.as_str(), 5);
    line.append("  ");
    let service = padded_end(name(r.port), 12);
    line.append(service.as_str());
    line.append("  ");
    let status = style.status(r.status);
    line.append(status.as_str());
    line.append("  ");
    line.append(latency);
    line
}

/// The rows of the table, in the order of the results; with `open_only`, only
/// the open ones.
pub open spec fn rows_text(
    enabled: bool,
    results: Seq<PortResult>,
    latencies: Seq<Seq<char>>,
    open_only: bool,
) -> Seq<Seq<char>>
    decreases results.len(),
{
    if results.len() == 0 {
        Seq::empty()
    } else {
        let before = rows_text(enabled, results.drop_last(), latencies.drop_last(), open_only);
        if open_only && results.last().status != Status::Open {
            before
        } else {
            before.push(row_text(enabled, results.last(), latencies.last()))
        }
    }
}

/// The rows of the table for `results`, whose latencies are given as texts in the same order.
pub fn render_rows(
    style: &Style,
    results: &Vec<PortResult>,
    latencies: &Vec<String>,
    open_only: bool,
) -> (rows: Vec<String>)
    requires
        latencies@.len() == results@.len(),
    ensures
        rows@.map_values(|s: String| s@) == rows_text(
            style.enabled,
            results@,
            latencies@.map_values(|s: String| s@),
            open_only,
        ),
{
    let mut rows: Vec<String> = Vec::new();
    let mut i: usize = 0;
    let ghost lats = latencies@.map_values(|s: String| s@);
    while i < results.len()
        invariant
            i <= results@.len(),
            latencies@.len() == results@.len(),
            lats == latencies@.map_values(|s: String| s@),
            rows@.map_values(|s: String| s@) == rows_text(
                style.enabled,
                results@.take(i as int),
                lats.take(i as int),
                open_only,
            ),
        decreases results@.len() - i,
    {
        let ghost before = rows@;
        assert(results@.take(i + 1).drop_last() =~= results@.take(i as int));
        assert(lats.take(i + 1).drop_last() =~= lats.take(i as int));
        let r = &results[i];
        if !(open_only && r.status != Status::Open) {
            let line = render_row(style, r, latencies[i].as_str());
            rows.push(line);
            assert(rows@.map_values(|s: String| s@) =~= before.map_values(|s: String| s@).push(
                line@,
            ));
        }
        i = i + 1;
    }
    assert(results@.take(i as int) =~= results@);
    assert(lats.take(i as int) =~= lats);
    rows
}

/// The summary: how many ports are open, closed and filtered, and how long the
/// scan took (`elapsed` is the seconds as text).
pub open spec fn summary_text(results: Seq<PortResult>, elapsed: Seq<char>) -> Seq<char> {
    decimal_text(results.filter(with_status(Status::Open)).len()) + " open, "@ + decimal_text(
        results.filter(with_status(Status::Closed)).len(),
    ) + " closed, "@ + decimal_text(results.filter(with_status(Status::Filtered)).len())
        + " filtered in "@ + elapsed + "s"@
}

/// The summary line, given the elapsed seconds as text.
pub fn summary_line(results: &Vec<PortResult>, elapsed: &str) -> (r: String)
    ensures
        r@ == summary_text(results@, elapsed@),
{
    let open = count_status(results, Status::Open);
    let closed = count_status(results, Status::Closed);
    let filtered = count_status(results, Status::Filtered);
    let mut r = decimal_string(open as u64);
    r.append(" open, ");
    let c = decimal_string(closed as u64);
    r.append(c.as_str());
    r.append(" closed, ");
    let f = decimal_string(filtered as u64);
    r.append(f.as_str());
    r.append(" filtered in ");
    r.append(elapsed);
    r.append("s");
    r
}

/// The process exit code for a finished run: 0 when the run succeeded (a port
/// was open, or with a wait, all were), 1 when it did not. (Arguments that fail
/// validation and refused hosts end the program with 2 before any run.)
pub fn exit_code(ok: bool) -> (r: u8)
    ensures
        r == if ok { 0u8 } else { 1u8 },
{
    if ok {
        0
    } else {
        1
    }
}

/// `s` holds no escape character, so it starts no colour.
pub open spec fn plain(s: Seq<char>) -> bool {
    forall|i: int| 0 <= i < s.len() ==> s[i] != '\x1b'
}

proof fn lemma_plain_concat(a: Seq<char>, b: Seq<char>)
    requires
        plain(a),
        plain(b),
    ensures
        plain(a + b),
{
    assert forall|i: int| 0 <= i < (a + b).len() implies (a + b)[i] != '\x1b' by {
        if i >= a.len() {
            assert((a + b)[i] == b[i - a.len()]);
        }
    }
}

proof fn lemma_plain_decimal(n: nat)
    ensures
        plain(decimal_text(n)),
    decreases n,
{
    if n >= 10 {
        lemma_plain_decimal(n / 10);
        assert(digit_char(n % 10) != '\x1b');
    } else {
        assert(digit_char(n) != '\x1b');
    }
}

proof fn lemma_plain_padded(s: Seq<char>, width: nat)
    requires
        plain(s),
    ensures
        plain(pad_start(s, width)),
        plain(pad_end(s, width)),
{
    if s.len() < width {
        let sp = spaces((width - s.len()) as nat);
        assert(plain(sp));
        lemma_plain_concat(sp, s);
        lemma_plain_concat(s, sp);
    }
}

/// With colour off, a row holds no escape character unless its latency text does.
pub proof fn lemma_plain_row(r: PortResult, latency: Seq<char>)
    requires
        plain(latency),
    ensures
        plain(row_text(false, r, latency)),
{
    reveal_strlit("  ");
    reveal_strlit("open");
    reveal_strlit("closed");
    reveal_strlit("filtered");
    lemma_plain_decimal(r.port as nat);
    lemma_plain_padded(decimal_text(r.port as nat), 5);
    lemma_names_plain(r.port);
    lemma_plain_padded(service_name(r.port), 12);
    lemma_plain_padded(status_word(r.status), 8);
    let a = pad_start(decimal_text(r.port as nat), 5);
    let b = pad_end(service_name(r.port), 12);
    let c = status_cell(false, r.status);
    lemma_plain_concat(a, "  "@);
    lemma_plain_concat(a + "  "@, b);
    lemma_plain_concat(a + "  "@ + b, "  "@);
    lemma_plain_concat(a + "  "@ + b + "  "@, c);
    lemma_plain_concat(a + "  "@ + b + "  "@ + c, "  "@);
    lemma_plain_concat(a + "  "@ + b + "  "@ + c + "  "@, latency);
}

/// With colour off (`NO_COLOR`, or output that is not a terminal), no row of the
/// table holds an escape character, given latency texts that hold none.
pub proof fn lemma_plain_rows(results: Seq<PortResult>, latencies: Seq<Seq<char>>, open_only: bool)
    requires
        latencies.len() == results.len(),
        forall|i: int| 0 <= i < latencies.len() ==> plain(#[trigger] latencies[i]),
    ensures
        forall|k: int|
            0 <= k < rows_text(false, results, latencies, open_only).len() ==> plain(
                #[trigger] rows_text(false, results, latencies, open_only)[k],
            ),
    decreases results.len(),
{
    if results.len() > 0 {
        let rs = results.drop_last();
        let ls = latencies.drop_last();
        assert forall|i: int| 0 <= i < ls.len() implies plain(#[trigger] ls[i]) by {
            assert(ls[i] == latencies[i]);
        }
        lemma_plain_rows(rs, ls, open_only);
        assert(plain(latencies.last()));
        lemma_plain_row(results.last(), latencies.last());
        let before = rows_text(false, rs, ls, open_only);
        let all = rows_text(false, results, latencies, open_only);
        assert forall|k: int| 0 <= k < all.len() implies plain(#[trigger] all[k]) by {
            if k < before.len() {
                assert(all[k] == before[k]);
            }
        }
    }
}

/// With colour off, the header holds no escape character either.
pub proof fn lemma_plain_header()
    ensures
        plain(header_text()),
{
    reveal_strlit("PORT");
    reveal_strlit("SERVICE");
    reveal_strlit("STATUS");
    reveal_strlit("  ");
    reveal_strlit("  LATENCY");
    lemma_plain_padded("PORT"@, 5);
    lemma_plain_padded("SERVICE"@, 12);
    lemma_plain_padded("STATUS"@, 8);
    let a = pad_start("PORT"@, 5);
    let b = pad_end("SERVICE"@, 12);
    let c = pad_end("STATUS"@, 8);
    lemma_plain_concat(a, "  "@);
    lemma_plain_concat(a + "  "@, b);
    lemma_plain_concat(a + "  "@ + b, "  "@);
    lemma_plain_concat(a + "  "@ + b + "  "@, c);
    lemma_plain_concat(a + "  "@ + b + "  "@ + c, "  LATENCY"@);
}

/// With `open_only`, every row is the row of an open result, and there is one
/// row per open result; without it, one row per result.
pub proof fn lemma_open_only_rows(
    enabled: bool,
    results: Seq<PortResult>,
    latencies: Seq<Seq<char>>,
)
    requires
        latencies.len() == results.len(),
    ensures
        rows_text(enabled, results, latencies, true).len() == results.filter(
            with_status(Status::Open),
        ).len(),
        rows_text(enabled, results, latencies, false).len() == results.len(),
        forall|k: int|
            0 <= k < rows_text(enabled, results, latencies, true).len() ==> exists|i: int|
                0 <= i < results.len() && results[i].status == Status::Open
                    && #[trigger] rows_text(enabled, results, latencies, true)[k] == row_text(
                    enabled,
                    results[i],
                    latencies[i],
                ),
    decreases results.len(),
{
    reveal(Seq::filter);
    if results.len() > 0 {
        let rs = results.drop_last();
        let ls = latencies.drop_last();
        lemma_open_only_rows(enabled, rs, ls);
        let before = rows_text(enabled, rs, ls, true);
        let all = rows_text(enabled, results, latencies, true);
        let n = results.len() - 1;
        assert forall|k: int| 0 <= k < all.len() implies exists|i: int|
            0 <= i < results.len() && results[i].status == Status::Open && #[trigger] all[k]
                == row_text(enabled, results[i], latencies[i]) by {
            if k < before.len() {
                let i = choose|i: int|
                    0 <= i < rs.len() && rs[i].status == Status::Open && #[trigger] before[k]
                        == row_text(enabled, rs[i], ls[i]);
                assert(all[k] == before[k]);
                assert(results[i] == rs[i] && latencies[i] == ls[i]);
            } else {
                assert(all[k] == row_text(enabled, results[n], latencies[n]));
            }
        }
    }
}

/// The summary does not depend on the order of the results: any reordering of
/// them gives the same line.
pub proof fn lemma_summary_order_free(
    results: Seq<PortResult>,
    reordered: Seq<PortResult>,
    elapsed: Seq<char>,
)
    requires
        reordered.to_multiset() == results.to_multiset(),
    ensures
        summary_text(reordered, elapsed) == summary_text(results, elapsed),
{
    lemma_filter_len_permutation(reordered, results, with_status(Status::Open));
    lemma_filter_len_permutation(reordered, results, with_status(Status::Closed));
    lemma_filter_len_permutation(reordered, results, with_status(Status::Filtered));
}

/// The columns of a row before the status: port right-aligned in five
/// characters and service name left-aligned in twelve, each followed by two spaces.
pub open spec fn row_lead(r: PortResult) -> Seq<char> {
    pad_start(decimal_text(r.port as nat), 5) + "  "@ + pad_end(service_name(r.port), 12) + "  "@
}

/// A row shows the result's own status: with colour off the status column is
/// the result's word (`open`, `closed` or `filtered`) left-aligned in eight
/// characters; with colour on it is the same column between the status's colour
/// code and the reset code, and the rest of the row is the same.
pub proof fn lemma_row_shows_own_status(r: PortResult, latency: Seq<char>)
    ensures
        ({
            let word = match r.status {
                Status::Open => "open"@,
                Status::Closed => "closed"@,
                Status::Filtered => "filtered"@,
            };
            let code = match r.status {
                Status::Open => GREEN@,
                Status::Closed => DIM@,
                Status::Filtered => YELLOW@,
            };
            &&& row_text(false, r, latency) == row_lead(r) + pad_end(word, 8) + "  "@ + latency
            &&& row_text(true, r, latency) == row_lead(r) + code + pad_end(word, 8) + RESET@
                + "  "@ + latency
        }),
{
    let lead = row_lead(r);
    let w = pad_end(status_word(r.status), 8);
    assert(row_text(false, r, latency) =~= lead + w + "  "@ + latency);
    assert(row_text(true, r, latency) =~= lead + status_code(r.status) + w + RESET@ + "  "@
        + latency);
}

/// How many of `results` have status `s`, counted one by one.
pub open spec fn tally(results: Seq<PortResult>, s: Status) -> nat
    decreases results.len(),
{
    if results.len() == 0 {
        0
    } else {
        tally(results.drop_last(), s) + if results.last().status == s {
            1nat
        } else {
            0nat
        }
    }
}

proof fn lemma_tally_filter(results: Seq<PortResult>, s: Status)
    ensures
        results.filter(with_status(s)).len() == tally(results, s),
    decreases results.len(),
{
    reveal(Seq::filter);
    if results.len() > 0 {
        lemma_tally_filter(results.drop_last(), s);
    }
}

/// The summary gives, in decimal, exactly how many results are open, closed and
/// filtered, whatever their number, then the elapsed seconds.
pub proof fn lemma_summary_counts(results: Seq<PortResult>, elapsed: Seq<char>)
    ensures
        summary_text(results, elapsed) == decimal_text(tally(results, Status::Open)) + " open, "@
            + decimal_text(tally(results, Status::Closed)) + " closed, "@ + decimal_text(
            tally(results, Status::Filtered),
        ) + " filtered in "@ + elapsed + "s"@,
{
    lemma_tally_filter(results, Status::Open);
    lemma_tally_filter(results, Status::Closed);
    lemma_tally_filter(results, Status::Filtered);
}

} // verus!
