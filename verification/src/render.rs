//! The dashboard page as HTML.

use vstd::prelude::*;
use vstd::string::*;
use crate::dashboard::{
    contains_text, escape_html, escaped, BetsOpenFilter, DashboardDisplayRow, DashboardFilters,
    InIntervalFilter,
};
use crate::text::{decimal_digits, decimal_text, push_i64, push_u64};

verus! {

/// The script that keeps the page fresh.
pub const DASHBOARD_CLIENT_SCRIPT: &'static str = r#"<script>
(function () {
  const params = window.location.search;
  const tbody = document.getElementById('dashboard-body');
  const rowCount = document.getElementById('row-count');
  const filterForm = document.getElementById('filters-form');
  let inflight = false;

  function esc(v) {
    return String(v)
      .replaceAll('&', '&amp;')
      .replaceAll('<', '&lt;')
      .replaceAll('>', '&gt;')
      .replaceAll('"', '&quot;')
      .replaceAll("'", '&#39;');
  }

  function localHHMM(ts) {
    if (!Number.isFinite(ts) || ts <= 0) {
      return '-';
    }
    const d = new Date(ts * 1000);
    const h = String(d.getHours()).padStart(2, '0');
    const m = String(d.getMinutes()).padStart(2, '0');
    return h + ':' + m;
  }

  function hasMock(row, key) {
    return Array.isArray(row.mock_columns) && row.mock_columns.includes(key);
  }

  function tdClass(row, key, extra) {
    const cls = [];
    if (extra) {
      cls.push(extra);
    }
    if (hasMock(row, key)) {
      cls.push('cell-mock');
    }
    return cls.join(' ');
  }

  function renderRow(row, idx) {
    const endLocal = localHHMM(Number(row.end_ts_utc));
    return `<tr data-row="${idx}">
      <td class="${tdClass(row, 'link', 'market-cell')}">
        <a class="market-btn" target="_blank" rel="noopener noreferrer" href="${esc(row.link_url)}">Open Market</a>
        <span class="slug-id" title="${esc(row.slug)}">${esc(row.slug)}</span>
      </td>
      <td class="${tdClass(row, 'coin', '')}">${esc(row.coin)}</td>
      <td class="${tdClass(row, 'duration', '')}">${esc(row.duration)}</td>
      <td class="${tdClass(row, 'bets_open', '')}">${esc(row.bets_open)}</td>
      <td class="${tdClass(row, 'in_interval', '')}">${esc(row.in_interval)}</td>
      <td data-end-ts="${row.end_ts_utc}" class="${tdClass(row, 'end', '')}">${esc(endLocal)}</td>
      <td class="${tdClass(row, 'ref_price', '')}">${esc(row.ref_price)}</td>
      <td class="${tdClass(row, 'price', '')}">${esc(row.price)}</td>
      <td class="${tdClass(row, 'probability', '')}">${esc(row.probability)}</td>
      <td class="${tdClass(row, 'best_bid_yes', '')}">${esc(row.best_bid_yes)}</td>
      <td class="${tdClass(row, 'best_ask_yes', '')}">${esc(row.best_ask_yes)}</td>
      <td class="${tdClass(row, 'position_net', '')}">${esc(row.position_net)}</td>
      <td class="${tdClass(row, 'pos_yes', '')}">${esc(row.pos_yes)}</td>
      <td class="${tdClass(row, 'pos_no', '')}">${esc(row.pos_no)}</td>
      <td class="${tdClass(row, 'offer_yes', '')}">${esc(row.offer_yes)}</td>
      <td class="${tdClass(row, 'offer_no', '')}">${esc(row.offer_no)}</td>
      <td class="${tdClass(row, 'net_profit', '')}">${esc(row.net_profit)}</td>
      <td class="${tdClass(row, 'taker_fee_pct', '')}">${esc(row.taker_fee_pct)}</td>
      <td class="${tdClass(row, 'maker_fee_pct', '')}">${esc(row.maker_fee_pct)}</td>
      <td class="${tdClass(row, 'fee_exponent', '')}">${esc(row.fee_exponent)}</td>
      <td class="${tdClass(row, 'reward_pct', '')}">${esc(row.reward_pct)}</td>
    </tr>`;
  }

  function rewriteExistingEndCells() {
    document.querySelectorAll('[data-end-ts]').forEach((td) => {
      const ts = Number(td.getAttribute('data-end-ts'));
      td.textContent = localHHMM(ts);
    });
  }

  async function refresh() {
    if (inflight) {
      return;
    }
    inflight = true;
    try {
      const r = await fetch('/dashboard/snapshot' + params, { cache: 'no-store' });
      if (!r.ok) {
        return;
      }
      const payload = await r.json();
      const rows = Array.isArray(payload.rows) ? payload.rows : [];
      tbody.innerHTML = rows.map((row, idx) => renderRow(row, idx)).join('');
      if (rowCount) {
        rowCount.textContent = String(rows.length);
      }
    } catch (_err) {
      // Keep UI stale on transient polling/network failures.
    } finally {
      inflight = false;
    }
  }

  rewriteExistingEndCells();
  if (filterForm) {
    filterForm.addEventListener('change', () => {
      const next = new URLSearchParams(new FormData(filterForm)).toString();
      window.location.assign(next ? `/dashboard?${next}` : '/dashboard');
    });
  }
  setInterval(refresh, 250);
})();
</script>"#;

/// The style of the page.
pub const DASHBOARD_STYLE: &'static str = "<style>:root{--bg:#f5f1e7;--bg2:#e9f0f2;--card:#ffffff;--ink:#182026;--muted:#5f6a73;--line:#d7dce1;--head:#14343f;--btn:#0c5f78;--btnhover:#094d61;--mockbg:#fff5b8;--mockink:#555c63}*{box-sizing:border-box}body{margin:0;color:var(--ink);font-family:\"Space Grotesk\",\"Avenir Next\",\"Segoe UI\",sans-serif;background:radial-gradient(circle at 10% 5%, #ffe7a3 0%, transparent 30%),radial-gradient(circle at 90% 0%, #b9e5f0 0%, transparent 28%),linear-gradient(160deg,var(--bg),var(--bg2));min-height:100vh}.shell{max-width:none;width:100%;margin:0;padding:20px 16px 26px}.hero{background:linear-gradient(135deg,#102f3a 0%,#24576b 100%);color:#f7fbfc;border-radius:16px;padding:18px 20px;box-shadow:0 10px 30px rgba(16,47,58,.25)}.hero h1{margin:0 0 8px;font-size:1.58rem}.hero-meta{display:flex;gap:14px;flex-wrap:wrap;font-size:.9rem;color:#dcebf0}.filters{margin-top:12px;background:rgba(255,255,255,.1);border:1px solid rgba(255,255,255,.22);border-radius:12px;padding:10px 12px}.filter-grid{display:grid;grid-template-columns:repeat(4,minmax(160px,1fr));gap:10px}.filter-block{background:rgba(0,0,0,.12);border-radius:10px;padding:8px}.filter-title{font-size:.74rem;letter-spacing:.04em;text-transform:uppercase;margin:0 0 6px;color:#dbeaf0}.filter-item{display:flex;align-items:center;gap:6px;font-size:.85rem;margin:3px 0}.filter-actions{margin-top:10px;display:flex;gap:10px;align-items:center}.auto-note{font-size:.76rem;color:#dcebf0;opacity:.9}.btn{padding:7px 10px;border-radius:8px;border:1px solid rgba(0,0,0,.15);font-weight:700;font-size:.78rem;cursor:pointer}.btn-reset{background:#e4eef2;color:#1b3642;text-decoration:none}.card{margin-top:14px;background:var(--card);border:1px solid #cbd4db;border-radius:16px;overflow:hidden;box-shadow:0 12px 28px rgba(26,35,42,.12)}.table-wrap{overflow:auto;max-height:75vh}table{width:100%;border-collapse:collapse;min-width:1300px}thead th{position:sticky;top:0;z-index:2;background:var(--head);color:#f2f7f9;font-size:.79rem;text-transform:uppercase;letter-spacing:.04em;padding:10px;border-bottom:1px solid #0e2730}tbody td{font-size:.84rem;padding:8px 10px;border-bottom:1px solid var(--line);white-space:nowrap}tbody tr:nth-child(even){background:#fafcfd}.market-cell{min-width:220px}.market-btn{display:inline-flex;align-items:center;justify-content:center;background:linear-gradient(135deg,var(--btn),#0f7592);color:#fff;text-decoration:none;padding:7px 10px;border-radius:9px;font-weight:700;font-size:.76rem;border:1px solid rgba(0,0,0,.12);box-shadow:0 2px 8px rgba(12,95,120,.25)}.market-btn:hover{background:linear-gradient(135deg,var(--btnhover),#0d5f78)}.slug-id{display:block;margin-top:6px;font-family:\"IBM Plex Mono\",\"SFMono-Regular\",monospace;font-size:.67rem;color:var(--muted);max-width:260px;overflow:hidden;text-overflow:ellipsis}.cell-mock{background:linear-gradient(135deg,var(--mockbg) 0%,#fff3ca 100%);color:var(--mockink)}.cell-mock::after{content:\" M\";font-size:.62rem;font-weight:700;color:#8c6a00}.legend{padding:10px 14px;border-top:1px solid var(--line);font-size:.8rem;color:var(--muted);background:#f8fbfc;display:flex;justify-content:space-between;gap:12px;flex-wrap:wrap}.legend b{color:#8c6a00}@media (max-width:980px){.filter-grid{grid-template-columns:repeat(2,minmax(150px,1fr))}}@media (max-width:760px){.hero h1{font-size:1.28rem}.shell{padding:12px}.card{margin-top:12px;border-radius:12px}.filter-grid{grid-template-columns:1fr}}</style>\n";

/// Mathematical content of a [`DashboardDisplayRow`].
pub struct DisplayRowView {
    pub slug: Seq<char>,
    pub link_url: Seq<char>,
    pub coin: Seq<char>,
    pub duration: Seq<char>,
    pub start_ts_utc: i64,
    pub end_ts_utc: i64,
    pub bets_open: Seq<char>,
    pub in_interval: Seq<char>,
    pub end_hhmm: Seq<char>,
    pub ref_price: Seq<char>,
    pub price: Seq<char>,
    pub probability: Seq<char>,
    pub best_bid_yes: Seq<char>,
    pub best_ask_yes: Seq<char>,
    pub position_net: Seq<char>,
    pub pos_yes: Seq<char>,
    pub pos_no: Seq<char>,
    pub offer_yes: Seq<char>,
    pub offer_no: Seq<char>,
    pub net_profit: Seq<char>,
    pub taker_fee_pct: Seq<char>,
    pub maker_fee_pct: Seq<char>,
    pub fee_exponent: Seq<char>,
    pub reward_pct: Seq<char>,
    pub mock_columns: Seq<Seq<char>>,
}

impl View for DashboardDisplayRow {
    type V = DisplayRowView;

    open spec fn view(&self) -> DisplayRowView {
        DisplayRowView {
            slug: self.slug@,
            link_url: self.link_url@,
            coin: self.coin@,
            duration: self.duration@,
            start_ts_utc: self.start_ts_utc,
            end_ts_utc: self.end_ts_utc,
            bets_open: self.bets_open@,
            in_interval: self.in_interval@,
            end_hhmm: self.end_hhmm@,
            ref_price: self.ref_price@,
            price: self.price@,
            probability: self.probability@,
            best_bid_yes: self.best_bid_yes@,
            best_ask_yes: self.best_ask_yes@,
            position_net: self.position_net@,
            pos_yes: self.pos_yes@,
            pos_no: self.pos_no@,
            offer_yes: self.offer_yes@,
            offer_no: self.offer_no@,
            net_profit: self.net_profit@,
            taker_fee_pct: self.taker_fee_pct@,
            maker_fee_pct: self.maker_fee_pct@,
            fee_exponent: self.fee_exponent@,
            reward_pct: self.reward_pct@,
            mock_columns: self.mock_columns.deep_view(),
        }
    }
}

pub open spec fn display_views(rows: Seq<DashboardDisplayRow>) -> Seq<DisplayRowView> {
    Seq::new(rows.len(), |i: int| rows[i]@)
}

/// The class of a cell: marked where its column holds a placeholder.
pub open spec fn mock_class(row: DisplayRowView, key: Seq<char>) -> Seq<char> {
    if row.mock_columns.contains(key) {
        "cell-mock"@
    } else {
        ""@
    }
}

fn mock_class_of(row: &DashboardDisplayRow, key: &str) -> (class: &'static str)
    ensures
        class@ == mock_class(row@, key@),
{
    if contains_text(&row.mock_columns, key) {
        "cell-mock"
    } else {
        ""
    }
}

/// The cell of the market: a link to its page, and its slug.
pub open spec fn market_cell_html(row: DisplayRowView) -> Seq<char> {
    "<td class=\"market-cell "@ + mock_class(row, "link"@) + "\">"@
        + "<a class=\"market-btn\" target=\"_blank\" rel=\"noopener noreferrer\" href=\""@
        + escaped(row.link_url, row.link_url.len()) + "\">Open Market</a>"@
        + "<span class=\"slug-id\" title=\""@ + escaped(row.slug, row.slug.len()) + "\">"@
        + escaped(row.slug, row.slug.len()) + "</span></td>"@
}

fn push_market_cell(out: &mut String, row: &DashboardDisplayRow)
    ensures
        final(out)@ == old(out)@ + market_cell_html(row@),
{
    let link = escape_html(row.link_url.as_str());
    let slug = escape_html(row.slug.as_str());
    out.append("<td class=\"market-cell ");
    out.append(mock_class_of(row, "link"));
    out.append("\">");
    out.append("<a class=\"market-btn\" target=\"_blank\" rel=\"noopener noreferrer\" href=\"");
    out.append(link.as_str());
    out.append("\">Open Market</a>");
    out.append("<span class=\"slug-id\" title=\"");
    out.append(slug.as_str());
    out.append("\">");
    out.append(slug.as_str());
    out.append("</span></td>");
    assert(final(out)@ =~= old(out)@ + market_cell_html(row@));
}

/// The cell of a column; the cell of the end also carries the end's
/// timestamp.
pub open spec fn cell_html(row: DisplayRowView, key: Seq<char>, value: Seq<char>) -> Seq<char> {
    if key == "end"@ {
        "<td data-end-ts=\""@ + decimal_text(row.end_ts_utc as int) + "\" class=\""@
            + mock_class(row, key) + "\">"@ + escaped(value, value.len()) + "</td>"@
    } else {
        "<td class=\""@ + mock_class(row, key) + "\">"@ + escaped(value, value.len())
            + "</td>"@
    }
}

fn push_cell(out: &mut String, row: &DashboardDisplayRow, key: &str, value: &str)
    ensures
        final(out)@ == old(out)@ + cell_html(row@, key@, value@),
{
    let text = escape_html(value);
    if crate::text::str_eq(key, "end") {
        out.append("<td data-end-ts=\"");
        push_i64(out, row.end_ts_utc);
        out.append("\" class=\"");
        out.append(mock_class_of(row, key));
        out.append("\">");
        out.append(text.as_str());
        out.append("</td>");
        assert(final(out)@ =~= old(out)@ + cell_html(row@, key@, value@));
    } else {
        out.append("<td class=\"");
        out.append(mock_class_of(row, key));
        out.append("\">");
        out.append(text.as_str());
        out.append("</td>");
        assert(final(out)@ =~= old(out)@ + cell_html(row@, key@, value@));
    }
}

/// Key of the column at a position after the market's, in display order.
pub open spec fn column_key(index: int) -> Seq<char> {
    if index == 0 {
        "coin"@
    } else if index == 1 {
        "duration"@
    } else if index == 2 {
        "bets_open"@
    } else if index == 3 {
        "in_interval"@
    } else if index == 4 {
        "end"@
    } else if index == 5 {
        "ref_price"@
    } else if index == 6 {
        "price"@
    } else if index == 7 {
        "probability"@
    } else if index == 8 {
        "best_bid_yes"@
    } else if index == 9 {
        "best_ask_yes"@
    } else if index == 10 {
        "position_net"@
    } else if index == 11 {
        "pos_yes"@
    } else if index == 12 {
        "pos_no"@
    } else if index == 13 {
        "offer_yes"@
    } else if index == 14 {
        "offer_no"@
    } else if index == 15 {
        "net_profit"@
    } else if index == 16 {
        "taker_fee_pct"@
    } else if index == 17 {
        "maker_fee_pct"@
    } else if index == 18 {
        "fee_exponent"@
    } else {
        "reward_pct"@
    }
}

/// Value of the column at a position after the market's.
pub open spec fn column_value(row: DisplayRowView, index: int) -> Seq<char> {
    if index == 0 {
        row.coin
    } else if index == 1 {
        row.duration
    } else if index == 2 {
        row.bets_open
    } else if index == 3 {
        row.in_interval
    } else if index == 4 {
        row.end_hhmm
    } else if index == 5 {
        row.ref_price
    } else if index == 6 {
        row.price
    } else if index == 7 {
        row.probability
    } else if index == 8 {
        row.best_bid_yes
    } else if index == 9 {
        row.best_ask_yes
    } else if index == 10 {
        row.position_net
    } else if index == 11 {
        row.pos_yes
    } else if index == 12 {
        row.pos_no
    } else if index == 13 {
        row.offer_yes
    } else if index == 14 {
        row.offer_no
    } else if index == 15 {
        row.net_profit
    } else if index == 16 {
        row.taker_fee_pct
    } else if index == 17 {
        row.maker_fee_pct
    } else if index == 18 {
        row.fee_exponent
    } else {
        row.reward_pct
    }
}

fn column_key_str(index: usize) -> (key: &'static str)
    ensures
        key@ == column_key(index as int),
{
    if index == 0 {
        "coin"
    } else if index == 1 {
        "duration"
    } else if index == 2 {
        "bets_open"
    } else if index == 3 {
        "in_interval"
    } else if index == 4 {
        "end"
    } else if index == 5 {
        "ref_price"
    } else if index == 6 {
        "price"
    } else if index == 7 {
        "probability"
    } else if index == 8 {
        "best_bid_yes"
    } else if index == 9 {
        "best_ask_yes"
    } else if index == 10 {
        "position_net"
    } else if index == 11 {
        "pos_yes"
    } else if index == 12 {
        "pos_no"
    } else if index == 13 {
        "offer_yes"
    } else if index == 14 {
        "offer_no"
    } else if index == 15 {
        "net_profit"
    } else if index == 16 {
        "taker_fee_pct"
    } else if index == 17 {
        "maker_fee_pct"
    } else if index == 18 {
        "fee_exponent"
    } else {
        "reward_pct"
    }
}

fn column_value_str(row: &DashboardDisplayRow, index: usize) -> (value: &str)
    ensures
        value@ == column_value(row@, index as int),
{
    if index == 0 {
        row.coin.as_str()
    } else if index == 1 {
        row.duration.as_str()
    } else if index == 2 {
        row.bets_open.as_str()
    } else if index == 3 {
        row.in_interval.as_str()
    } else if index == 4 {
        row.end_hhmm.as_str()
    } else if index == 5 {
        row.ref_price.as_str()
    } else if index == 6 {
        row.price.as_str()
    } else if index == 7 {
        row.probability.as_str()
    } else if index == 8 {
        row.best_bid_yes.as_str()
    } else if index == 9 {
        row.best_ask_yes.as_str()
    } else if index == 10 {
        row.position_net.as_str()
    } else if index == 11 {
        row.pos_yes.as_str()
    } else if index == 12 {
        row.pos_no.as_str()
    } else if index == 13 {
        row.offer_yes.as_str()
    } else if index == 14 {
        row.offer_no.as_str()
    } else if index == 15 {
        row.net_profit.as_str()
    } else if index == 16 {
        row.taker_fee_pct.as_str()
    } else if index == 17 {
        row.maker_fee_pct.as_str()
    } else if index == 18 {
        row.fee_exponent.as_str()
    } else {
        row.reward_pct.as_str()
    }
}

/// The first `n` cells of a row after the market's, in display order.
pub open spec fn cells_html(row: DisplayRowView, n: nat) -> Seq<char>
    decreases n,
{
    if n == 0 {
        Seq::empty()
    } else {
        cells_html(row, (n - 1) as nat) + cell_html(
            row,
            column_key(n - 1),
            column_value(row, n - 1),
        )
    }
}

/// A row of the table.
pub open spec fn row_html(row: DisplayRowView, idx: nat) -> Seq<char> {
    "<tr data-row=\""@ + decimal_digits(idx) + "\">"@ + market_cell_html(row) + cells_html(
        row,
        20,
    ) + "</tr>\n"@
}

fn push_cells(out: &mut String, row: &DashboardDisplayRow)
    ensures
        final(out)@ == old(out)@ + cells_html(row@, 20),
{
    let ghost start = out@;
    let mut i: usize = 0;
    assert(out@ =~= start + cells_html(row@, 0));
    while i < 20
        invariant
            i <= 20,
            out@ == start + cells_html(row@, i as nat),
        decreases 20 - i,
    {
        push_cell(out, row, column_key_str(i), column_value_str(row, i));
        assert(out@ =~= start + cells_html(row@, (i + 1) as nat));
        i = i + 1;
    }
}

pub fn render_row_html(row: &DashboardDisplayRow, idx: usize) -> (out: String)
    ensures
        out@ == row_html(row@, idx as nat),
{
    let mut out = String::new();
    out.append("<tr data-row=\"");
    push_u64(&mut out, idx as u64);
    out.append("\">");
    push_market_cell(&mut out, row);
    push_cells(&mut out, row);
    out.append("</tr>\n");
    assert(out@ =~= row_html(row@, idx as nat));
    out
}

/// The first `n` rows of the table.
pub open spec fn rows_html(rows: Seq<DisplayRowView>, n: nat) -> Seq<char>
    decreases n,
{
    if n == 0 {
        Seq::empty()
    } else {
        rows_html(rows, (n - 1) as nat) + row_html(rows[n - 1], (n - 1) as nat)
    }
}

pub fn render_rows_html(rows: &Vec<DashboardDisplayRow>) -> (out: String)
    ensures
        out@ == rows_html(display_views(rows@), rows@.len()),
{
    let mut out = String::new();
    let mut i: usize = 0;
    assert(out@ =~= rows_html(display_views(rows@), 0));
    while i < rows.len()
        invariant
            i <= rows@.len(),
            out@ == rows_html(display_views(rows@), i as nat),
        decreases rows@.len() - i,
    {
        let row = render_row_html(&rows[i], i);
        out.append(row.as_str());
        i = i + 1;
    }
    out
}

/// One option of a filter: a checkbox, ticked where the option is selected.
pub open spec fn option_html(param_name: Seq<char>, option: Seq<char>, checked: bool) -> Seq<char> {
    "<label class=\"filter-item\"><input type=\"checkbox\" name=\""@ + escaped(
        param_name,
        param_name.len(),
    ) + "\" value=\""@ + escaped(option, option.len()) + "\""@ + (if checked {
        " checked"@
    } else {
        ""@
    }) + "> <span>"@ + escaped(option, option.len()) + "</span></label>"@
}

/// The first `n` options of a filter.
pub open spec fn options_html(
    param_name: Seq<char>,
    options: Seq<Seq<char>>,
    checked: Seq<bool>,
    n: nat,
) -> Seq<char>
    decreases n,
{
    if n == 0 {
        Seq::empty()
    } else {
        options_html(param_name, options, checked, (n - 1) as nat) + option_html(
            param_name,
            options[n - 1],
            checked[n - 1],
        )
    }
}

/// A filter of the page: its title and its options.
pub open spec fn checkbox_group_html(
    title: Seq<char>,
    param_name: Seq<char>,
    options: Seq<Seq<char>>,
    checked: Seq<bool>,
) -> Seq<char> {
    "<section class=\"filter-block\">"@ + "<p class=\"filter-title\">"@ + escaped(
        title,
        title.len(),
    ) + "</p>"@ + options_html(param_name, options, checked, options.len()) + "</section>"@
}

fn push_option(out: &mut String, param_name: &str, option: &str, checked: bool)
    ensures
        final(out)@ == old(out)@ + option_html(param_name@, option@, checked),
{
    let name = escape_html(param_name);
    let value = escape_html(option);
    out.append("<label class=\"filter-item\"><input type=\"checkbox\" name=\"");
    out.append(name.as_str());
    out.append("\" value=\"");
    out.append(value.as_str());
    out.append("\"");
    out.append(
        if checked {
            " checked"
        } else {
            ""
        },
    );
    out.append("> <span>");
    out.append(value.as_str());
    out.append("</span></label>");
    assert(final(out)@ =~= old(out)@ + option_html(param_name@, option@, checked));
}

pub fn render_checkbox_group(
    title: &str,
    param_name: &str,
    options: &Vec<&'static str>,
    checked: &Vec<bool>,
) -> (out: String)
    requires
        checked@.len() == options@.len(),
    ensures
        out@ == checkbox_group_html(
            title@,
            param_name@,
            crate::dashboard::option_views(options@),
            checked@,
        ),
{
    let ghost views = crate::dashboard::option_views(options@);
    let heading = escape_html(title);
    let mut out = String::new();
    out.append("<section class=\"filter-block\">");
    out.append("<p class=\"filter-title\">");
    out.append(heading.as_str());
    out.append("</p>");
    let ghost head = out@;
    let mut i: usize = 0;
    assert(out@ =~= head + options_html(param_name@, views, checked@, 0));
    while i < options.len()
        invariant
            i <= options@.len(),
            checked@.len() == options@.len(),
            views == crate::dashboard::option_views(options@),
            out@ == head + options_html(param_name@, views, checked@, i as nat),
        decreases options@.len() - i,
    {
        push_option(&mut out, param_name, options[i], checked[i]);
        assert(views[i as int] == options@[i as int]@);
        assert(out@ =~= head + options_html(param_name@, views, checked@, (i + 1) as nat));
        i = i + 1;
    }
    out.append("</section>");
    assert(out@ =~= checkbox_group_html(title@, param_name@, views, checked@));
    out
}

} // verus!

verus! {

/// Title of the column at a position, in display order.
pub open spec fn header_title(index: int) -> Seq<char> {
    if index == 0 {
        "Link"@
    } else if index == 1 {
        "Coin"@
    } else if index == 2 {
        "Duration"@
    } else if index == 3 {
        "Bets Open"@
    } else if index == 4 {
        "In Interval"@
    } else if index == 5 {
        "End"@
    } else if index == 6 {
        "Ref Price"@
    } else if index == 7 {
        "Price"@
    } else if index == 8 {
        "Probability"@
    } else if index == 9 {
        "Best Bid YES"@
    } else if index == 10 {
        "Best Ask YES"@
    } else if index == 11 {
        "Position Net"@
    } else if index == 12 {
        "Pos YES"@
    } else if index == 13 {
        "Pos NO"@
    } else if index == 14 {
        "Offer YES"@
    } else if index == 15 {
        "Offer NO"@
    } else if index == 16 {
        "Net Profit"@
    } else if index == 17 {
        "Taker Fee %"@
    } else if index == 18 {
        "Maker Fee %"@
    } else if index == 19 {
        "Fee Exp"@
    } else {
        "Reward %"@
    }
}

fn header_title_str(index: usize) -> (title: &'static str)
    ensures
        title@ == header_title(index as int),
{
    if index == 0 {
        "Link"
    } else if index == 1 {
        "Coin"
    } else if index == 2 {
        "Duration"
    } else if index == 3 {
        "Bets Open"
    } else if index == 4 {
        "In Interval"
    } else if index == 5 {
        "End"
    } else if index == 6 {
        "Ref Price"
    } else if index == 7 {
        "Price"
    } else if index == 8 {
        "Probability"
    } else if index == 9 {
        "Best Bid YES"
    } else if index == 10 {
        "Best Ask YES"
    } else if index == 11 {
        "Position Net"
    } else if index == 12 {
        "Pos YES"
    } else if index == 13 {
        "Pos NO"
    } else if index == 14 {
        "Offer YES"
    } else if index == 15 {
        "Offer NO"
    } else if index == 16 {
        "Net Profit"
    } else if index == 17 {
        "Taker Fee %"
    } else if index == 18 {
        "Maker Fee %"
    } else if index == 19 {
        "Fee Exp"
    } else {
        "Reward %"
    }
}

/// The first `n` headings of the table.
pub open spec fn headers_html(n: nat) -> Seq<char>
    decreases n,
{
    if n == 0 {
        Seq::empty()
    } else {
        headers_html((n - 1) as nat) + "<th>"@ + escaped(
            header_title(n - 1),
            header_title(n - 1).len(),
        ) + "</th>"@
    }
}

fn push_headers(out: &mut String)
    ensures
        final(out)@ == old(out)@ + headers_html(21),
{
    let ghost start = out@;
    let mut i: usize = 0;
    assert(out@ =~= start + headers_html(0));
    while i < 21
        invariant
            i <= 21,
            out@ == start + headers_html(i as nat),
        decreases 21 - i,
    {
        let title = escape_html(header_title_str(i));
        out.append("<th>");
        out.append(title.as_str());
        out.append("</th>");
        assert(out@ =~= start + headers_html((i + 1) as nat));
        i = i + 1;
    }
}

/// The head of the page up to the filters: title, style, and the line that
/// tells the number of rows and the server's time.
pub open spec fn page_head_html(row_count: nat, now_utc: Seq<char>) -> Seq<char> {
    "<!DOCTYPE html><html><head><meta charset=\"utf-8\">\n"@ + "<meta name=\"viewport\" content=\"width=device-width, initial-scale=1\">\n"@ + "<title>PMM Dashboard</title>\n"@ + DASHBOARD_STYLE@ + "</head><body><main class=\"shell\">\n"@ + "<section class=\"hero\"><h1>PMM Dashboard</h1>"@ + "<div class=\"hero-meta\">\n"@ + "<span>Scope: 4 coins × 5 durations × previous/active/next</span>"@ + "<span>Rows: <b id=\"row-count\">"@ + decimal_digits(row_count) + "</b></span>"@ + "<span>Server UTC: "@ + escaped(now_utc, now_utc.len()) + "</span>"@ + "<span>Refresh: 250ms</span>"@ + "</div>"@ + "<form id=\"filters-form\" class=\"filters\" method=\"get\" action=\"/dashboard\">\n"@ + "<div class=\"filter-grid\">\n"@
}

fn push_page_head(out: &mut String, row_count: usize, now_utc: &str)
    ensures
        final(out)@ == old(out)@ + page_head_html(row_count as nat, now_utc@),
{
    let now = escape_html(now_utc);
    out.append("<!DOCTYPE html><html><head><meta charset=\"utf-8\">\n");
    out.append("<meta name=\"viewport\" content=\"width=device-width, initial-scale=1\">\n");
    out.append("<title>PMM Dashboard</title>\n");
    out.append(DASHBOARD_STYLE);
    out.append("</head><body><main class=\"shell\">\n");
    out.append("<section class=\"hero\"><h1>PMM Dashboard</h1>");
    out.append("<div class=\"hero-meta\">\n");
    out.append("<span>Scope: 4 coins × 5 durations × previous/active/next</span>");
    out.append("<span>Rows: <b id=\"row-count\">");
    push_u64(out, row_count as u64);
    out.append("</b></span>");
    out.append("<span>Server UTC: ");
    out.append(now.as_str());
    out.append("</span>");
    out.append("<span>Refresh: 250ms</span>");
    out.append("</div>");
    out.append("<form id=\"filters-form\" class=\"filters\" method=\"get\" action=\"/dashboard\">\n");
    out.append("<div class=\"filter-grid\">\n");
    assert(final(out)@ =~= old(out)@ + page_head_html(row_count as nat, now_utc@));
}

/// For every option, whether it is among the selected values.
pub open spec fn selection_flags(selected: Seq<Seq<char>>, options: Seq<Seq<char>>) -> Seq<bool> {
    Seq::new(options.len(), |i: int| selected.contains(options[i]))
}

fn flags_of(selected: &Vec<String>, options: &Vec<&'static str>) -> (flags: Vec<bool>)
    ensures
        flags@ == selection_flags(selected.deep_view(), crate::dashboard::option_views(options@)),
{
    let mut flags: Vec<bool> = Vec::new();
    let mut i: usize = 0;
    while i < options.len()
        invariant
            i <= options@.len(),
            flags@.len() == i,
            forall|k: int|
                0 <= k < i ==> flags@[k] == selected.deep_view().contains(
                    crate::dashboard::option_views(options@)[k],
                ),
        decreases options@.len() - i,
    {
        flags.push(contains_text(selected, options[i]));
        i = i + 1;
    }
    assert(flags@ =~= selection_flags(
        selected.deep_view(),
        crate::dashboard::option_views(options@),
    ));
    flags
}

/// The four filters of the page, each with its selected options ticked.
pub open spec fn filters_html(filters: &DashboardFilters) -> Seq<char> {
    checkbox_group_html(
        "Coin"@,
        "coin"@,
        crate::dashboard::coin_options_spec(),
        selection_flags(filters.coins.deep_view(), crate::dashboard::coin_options_spec()),
    ) + checkbox_group_html(
        "Duration"@,
        "duration"@,
        crate::dashboard::duration_options_spec(),
        selection_flags(filters.durations.deep_view(), crate::dashboard::duration_options_spec()),
    ) + checkbox_group_html(
        "Bets Open"@,
        "bets_open"@,
        seq!["open"@, "closed"@],
        seq![
            filters.bets_open@.contains(BetsOpenFilter::Open),
            filters.bets_open@.contains(BetsOpenFilter::Closed),
        ],
    ) + checkbox_group_html(
        "In Interval"@,
        "in_interval"@,
        seq!["yes"@, "no"@],
        seq![
            filters.in_interval@.contains(InIntervalFilter::Yes),
            filters.in_interval@.contains(InIntervalFilter::No),
        ],
    )
}

fn two_options(first: &'static str, second: &'static str) -> (options: Vec<&'static str>)
    ensures
        crate::dashboard::option_views(options@) == seq![first@, second@],
        options@.len() == 2,
{
    let mut options: Vec<&'static str> = Vec::new();
    options.push(first);
    options.push(second);
    assert(crate::dashboard::option_views(options@) =~= seq![first@, second@]);
    options
}

fn two_flags(first: bool, second: bool) -> (flags: Vec<bool>)
    ensures
        flags@ == seq![first, second],
        flags@.len() == 2,
{
    let mut flags: Vec<bool> = Vec::new();
    flags.push(first);
    flags.push(second);
    assert(flags@ =~= seq![first, second]);
    flags
}

fn coin_group(filters: &DashboardFilters) -> (group: String)
    ensures
        group@ == checkbox_group_html(
            "Coin"@,
            "coin"@,
            crate::dashboard::coin_options_spec(),
            selection_flags(filters.coins.deep_view(), crate::dashboard::coin_options_spec()),
        ),
{
    let coins = crate::dashboard::coin_options();
    render_checkbox_group("Coin", "coin", &coins, &flags_of(&filters.coins, &coins))
}

fn duration_group(filters: &DashboardFilters) -> (group: String)
    ensures
        group@ == checkbox_group_html(
            "Duration"@,
            "duration"@,
            crate::dashboard::duration_options_spec(),
            selection_flags(
                filters.durations.deep_view(),
                crate::dashboard::duration_options_spec(),
            ),
        ),
{
    let durations = crate::dashboard::duration_options();
    render_checkbox_group(
        "Duration",
        "duration",
        &durations,
        &flags_of(&filters.durations, &durations),
    )
}

fn bets_group(filters: &DashboardFilters) -> (group: String)
    ensures
        group@ == checkbox_group_html(
            "Bets Open"@,
            "bets_open"@,
            seq!["open"@, "closed"@],
            seq![
                filters.bets_open@.contains(BetsOpenFilter::Open),
                filters.bets_open@.contains(BetsOpenFilter::Closed),
            ],
        ),
{
    render_checkbox_group(
        "Bets Open",
        "bets_open",
        &two_options("open", "closed"),
        &two_flags(
            filters.bets_open_selected(BetsOpenFilter::Open),
            filters.bets_open_selected(BetsOpenFilter::Closed),
        ),
    )
}

fn interval_group(filters: &DashboardFilters) -> (group: String)
    ensures
        group@ == checkbox_group_html(
            "In Interval"@,
            "in_interval"@,
            seq!["yes"@, "no"@],
            seq![
                filters.in_interval@.contains(InIntervalFilter::Yes),
                filters.in_interval@.contains(InIntervalFilter::No),
            ],
        ),
{
    render_checkbox_group(
        "In Interval",
        "in_interval",
        &two_options("yes", "no"),
        &two_flags(
            filters.in_interval_selected(InIntervalFilter::Yes),
            filters.in_interval_selected(InIntervalFilter::No),
        ),
    )
}

fn push_filters(out: &mut String, filters: &DashboardFilters)
    ensures
        final(out)@ == old(out)@ + filters_html(filters),
{
    let coins = coin_group(filters);
    let durations = duration_group(filters);
    let bets = bets_group(filters);
    let interval = interval_group(filters);
    out.append(coins.as_str());
    out.append(durations.as_str());
    out.append(bets.as_str());
    out.append(interval.as_str());
    assert(final(out)@ =~= old(out)@ + (coins@ + durations@ + bets@ + interval@));
}

/// The page: head, filters, the table with its headings and rows, the
/// legend, and the script.
pub open spec fn page_html(
    rows: Seq<DisplayRowView>,
    filters: &DashboardFilters,
    now_utc: Seq<char>,
) -> Seq<char> {
    page_head_html(rows.len(), now_utc) + filters_html(filters) + ("</div>"@ + "<div class=\"filter-actions\"><a class=\"btn btn-reset\" href=\"/dashboard\">Reset</a><span class=\"auto-note\">Auto-applies on checkbox change</span></div>"@ + "</form></section>\n"@ + "<section class=\"card\"><div class=\"table-wrap\"><table id=\"dashboard-table\">\n"@ + "<thead><tr>"@)
        + headers_html(21) + "</tr></thead><tbody id=\"dashboard-body\">\n"@ + rows_html(rows, rows.len()) + ("</tbody></table></div>"@ + "<div class=\"legend\"><span>Mock-backed cells are highlighted <b>yellow/grey</b> and tagged with <b>M</b>.</span><span>End is shown in <b>local browser time</b>.</span></div></section>"@) + DASHBOARD_CLIENT_SCRIPT@ + "</main></body></html>\n"@
}

fn push_table_open(out: &mut String)
    ensures
        final(out)@ == old(out)@ + ("</div>"@ + "<div class=\"filter-actions\"><a class=\"btn btn-reset\" href=\"/dashboard\">Reset</a><span class=\"auto-note\">Auto-applies on checkbox change</span></div>"@ + "</form></section>\n"@ + "<section class=\"card\"><div class=\"table-wrap\"><table id=\"dashboard-table\">\n"@ + "<thead><tr>"@),
{
    out.append("</div>");
    out.append("<div class=\"filter-actions\"><a class=\"btn btn-reset\" href=\"/dashboard\">Reset</a><span class=\"auto-note\">Auto-applies on checkbox change</span></div>");
    out.append("</form></section>\n");
    out.append("<section class=\"card\"><div class=\"table-wrap\"><table id=\"dashboard-table\">\n");
    out.append("<thead><tr>");
    assert(final(out)@ =~= old(out)@ + ("</div>"@ + "<div class=\"filter-actions\"><a class=\"btn btn-reset\" href=\"/dashboard\">Reset</a><span class=\"auto-note\">Auto-applies on checkbox change</span></div>"@ + "</form></section>\n"@ + "<section class=\"card\"><div class=\"table-wrap\"><table id=\"dashboard-table\">\n"@ + "<thead><tr>"@));
}

fn push_table_close(out: &mut String)
    ensures
        final(out)@ == old(out)@ + ("</tbody></table></div>"@ + "<div class=\"legend\"><span>Mock-backed cells are highlighted <b>yellow/grey</b> and tagged with <b>M</b>.</span><span>End is shown in <b>local browser time</b>.</span></div></section>"@),
{
    out.append("</tbody></table></div>");
    out.append("<div class=\"legend\"><span>Mock-backed cells are highlighted <b>yellow/grey</b> and tagged with <b>M</b>.</span><span>End is shown in <b>local browser time</b>.</span></div></section>");
    assert(final(out)@ =~= old(out)@ + ("</tbody></table></div>"@ + "<div class=\"legend\"><span>Mock-backed cells are highlighted <b>yellow/grey</b> and tagged with <b>M</b>.</span><span>End is shown in <b>local browser time</b>.</span></div></section>"@));
}

/// Renders the page for the rows shown, the filters in force and the
/// server's time.
pub fn render_dashboard_html_with_filters(
    rows: &Vec<DashboardDisplayRow>,
    filters: &DashboardFilters,
    now_utc: &str,
) -> (out: String)
    ensures
        out@ == page_html(display_views(rows@), filters, now_utc@),
{
    let body = render_rows_html(rows);
    let mut out = String::new();
    push_page_head(&mut out, rows.len(), now_utc);
    push_filters(&mut out, filters);
    push_table_open(&mut out);
    push_headers(&mut out);
    out.append("</tr></thead><tbody id=\"dashboard-body\">\n");
    out.append(body.as_str());
    push_table_close(&mut out);
    out.append(DASHBOARD_CLIENT_SCRIPT);
    out.append("</main></body></html>\n");
    assert(out@ =~= page_html(display_views(rows@), filters, now_utc@));
    out
}

} // verus!
