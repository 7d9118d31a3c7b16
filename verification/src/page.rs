//! The page of the dashboard, with a placeholder for everything that a
//! configuration sets.

use vstd::prelude::*;

use crate::text::{append, chars_of};

verus! {

/// From the start to the title.
pub const HEAD_PART: &'static str = r##"<!doctype html>
<html lang="en" data-theme="dark">
<head>
<meta charset="utf-8">
<meta name="viewport" content="width=device-width, initial-scale=1">
"##;

/// Title of the page.
pub const TITLE_SLOT: &'static str = r##"<title>__MONITOR_TITLE__</title>"##;

/// Between the title and the icon.
pub const HEAD_END_PART: &'static str = r##"
"##;

/// Icon of the page.
pub const ICON_SLOT: &'static str = r##"<link rel="icon" href="__MONITOR_FAVICON_URL__">"##;

/// From the icon to the heading.
pub const STYLE_PART: &'static str = r##"
<style>
:root { --bg: #0d1117; --panel: #161b22; --line: #30363d; --text: #e6edf3; --muted: #8b949e; --accent: #67e8f9; --good: #3fb950; --warn: #d29922; --bad: #f85149; --info: #58a6ff; }
[data-theme="light"] { --bg: #f6f8fa; --panel: #ffffff; --line: #d0d7de; --text: #1f2328; --muted: #59636e; --accent: #0e7490; }
* { box-sizing: border-box; }
body { margin: 0; background: var(--bg); color: var(--text); font: 14px/1.5 system-ui, sans-serif; }
header, main, footer { max-width: 1180px; margin: 0 auto; padding: 16px; }
header { display: flex; flex-wrap: wrap; gap: 12px; align-items: center; }
h1 { margin: 0; font-size: 22px; }
header p { margin: 0; color: var(--muted); flex-basis: 100%; }
button { background: var(--panel); color: var(--text); border: 1px solid var(--line); border-radius: 6px; padding: 4px 12px; cursor: pointer; }
button.active { border-color: var(--accent); color: var(--accent); }
.grow { flex: 1; }
.grid { display: grid; gap: 12px; grid-template-columns: repeat(auto-fit, minmax(240px, 1fr)); }
.panel { background: var(--panel); border: 1px solid var(--line); border-radius: 10px; padding: 12px; }
.panel h3 { margin: 0; font-size: 13px; color: var(--muted); font-weight: 600; }
.panel strong { font-size: 22px; }
.panel canvas { width: 100%; height: 72px; display: block; }
section h2 { font-size: 15px; margin: 20px 0 8px; }
dl { display: grid; grid-template-columns: auto 1fr; gap: 2px 12px; margin: 0; }
dt { color: var(--muted); }
dd { margin: 0; text-align: right; font-variant-numeric: tabular-nums; }
.page { display: none; }
.page.active { display: block; }
.endpoint { display: flex; gap: 10px; align-items: center; padding: 6px 0; border-top: 1px solid var(--line); }
.endpoint-count { width: 70px; text-align: right; font-variant-numeric: tabular-nums; }
.endpoint-live { color: var(--accent); min-width: 60px; }
.endpoint-path { flex: 1; overflow: hidden; text-overflow: ellipsis; white-space: nowrap; }
.endpoint-bar { height: 4px; border-radius: 2px; background: var(--good); }
.endpoint-stats { color: var(--muted); font-variant-numeric: tabular-nums; }
footer { color: var(--muted); }
</style>
</head>
<body>
<header>
  "##;

/// Heading of the page.
pub const HEADING_SLOT: &'static str = r##"<h1>__MONITOR_TITLE__</h1>"##;

/// From the heading to the description.
pub const TABS_PART: &'static str = r##"
  <span class="grow"></span>
  <button data-tab="runtime" class="active">Runtime</button>
  <button data-tab="api">API</button>
  <button id="theme">Light / Dark</button>
  "##;

/// Text below the heading.
pub const DESCRIPTION_SLOT: &'static str = r##"<p>__MONITOR_DESCRIPTION__</p>"##;

/// From the description to the number of the process.
pub const PROCESS_PART: &'static str = r##"
</header>
<main>
  <p id="notice" class="panel" hidden></p>
  <div class="page active" data-page="runtime">
    <section>
      <h2>Process "##;

/// Number of the process.
pub const NUMBER_SLOT: &'static str = r##"<small>PID __MONITOR_PID__</small>"##;

/// From the number of the process to its descriptors.
pub const PROCESS_FIGURES_PART: &'static str = r##"</h2>
      <div class="grid">
        <div class="panel"><h3>CPU</h3><strong id="process-cpu">-</strong><canvas id="chart-process-cpu"></canvas></div>
        <div class="panel"><h3>RSS</h3><strong id="process-rss">-</strong><canvas id="chart-process-rss"></canvas></div>
        <div class="panel"><h3>Details</h3><dl>
          <dt>Threads</dt><dd id="process-threads">-</dd>
          "##;

/// What the open descriptors of the process are called.
pub const DESCRIPTORS_SLOT: &'static str = r##"<dt>__MONITOR_DESCRIPTOR_LABEL__</dt>"##;

/// From the descriptors of the process to the footer.
pub const FIGURES_PART: &'static str = r##"<dd id="process-descriptors">-</dd>
          <dt>Uptime</dt><dd id="process-uptime">-</dd>
        </dl></div>
      </div>
    </section>
    <section>
      <h2>Runtime</h2>
      <div class="grid">
        <div class="panel"><h3>Tasks</h3><strong id="runtime-tasks">-</strong><canvas id="chart-tasks"></canvas></div>
        <div class="panel"><h3>Heap</h3><dl>
          <dt>Heap Alloc</dt><dd id="heap-alloc">-</dd>
          <dt>Heap In Use</dt><dd id="heap-inuse">-</dd>
          <dt>Heap Idle</dt><dd id="heap-idle">-</dd>
          <dt>Heap Released</dt><dd id="heap-released">-</dd>
          <dt>Heap Resident</dt><dd id="heap-resident">-</dd>
          <dt>Heap Sys</dt><dd id="heap-sys">-</dd>
          <dt>Workers</dt><dd id="runtime-workers">-</dd>
        </dl></div>
      </div>
    </section>
    <section>
      <h2>System</h2>
      <div class="grid">
        <div class="panel"><h3>CPU</h3><strong id="system-cpu">-</strong><canvas id="chart-system-cpu"></canvas></div>
        <div class="panel"><h3>Memory</h3><strong id="system-memory">-</strong><canvas id="chart-system-memory"></canvas></div>
        <div class="panel"><h3>Network</h3><strong id="system-network">-</strong><canvas id="chart-network"></canvas></div>
        <div class="panel"><h3>Disk</h3><dl>
          <dt>Used</dt><dd id="disk-used">-</dd>
          <dt>Free</dt><dd id="disk-free">-</dd>
          <dt>Total</dt><dd id="disk-total">-</dd>
          <dt>Type</dt><dd id="disk-type">-</dd>
          <dt>Load</dt><dd id="system-load">-</dd>
        </dl></div>
      </div>
    </section>
  </div>
  <div class="page" data-page="api">
    <section>
      <h2>HTTP</h2>
      <p><button data-window="30">30s</button> <button data-window="60" class="active">60s</button></p>
      <div class="grid">
        <div class="panel"><h3>QPS</h3><strong id="http-rps">-</strong><canvas id="chart-rps"></canvas></div>
        <div class="panel"><h3>Latency</h3><dl>
          <dt>P50</dt><dd id="http-p50">-</dd>
          <dt>P95</dt><dd id="http-p95">-</dd>
          <dt>P99</dt><dd id="http-p99">-</dd>
          <dt>P999</dt><dd id="http-p999">-</dd>
        </dl></div>
        <div class="panel"><h3>Errors</h3><dl>
          <dt>4xx rate</dt><dd id="http-4xx">-</dd>
          <dt>5xx rate</dt><dd id="http-5xx">-</dd>
          <dt>Requests</dt><dd id="http-requests">-</dd>
          <dt>In flight</dt><dd id="http-live">-</dd>
        </dl></div>
        <div class="panel"><h3>Status codes</h3><dl>
          <dt>1xx</dt><dd id="status-1xx">-</dd>
          <dt>2xx</dt><dd id="status-2xx">-</dd>
          <dt>3xx</dt><dd id="status-3xx">-</dd>
          <dt>4xx</dt><dd id="status-4xx">-</dd>
          <dt>5xx</dt><dd id="status-5xx">-</dd>
        </dl></div>
      </div>
    </section>
    <section>
      <h2>Endpoints</h2>
      <p>
        <button data-filter="all" class="active">All</button>
        <button data-filter="2xx">Success</button>
        <button data-filter="3xx">Redirect</button>
        <button data-filter="4xx">Client error</button>
        <button data-filter="5xx">Server error</button>
      </p>
      <div class="panel" id="endpoints"></div>
    </section>
  </div>
</main>
"##;

/// Text at the bottom of the page.
pub const FOOTER_SLOT: &'static str = r##"<footer>__MONITOR_FOOTER__</footer>"##;

/// From the footer to the polling interval.
pub const SCRIPT_START_PART: &'static str = r##"
<script>
const refreshMs "##;

/// Polling interval in the script of the page.
pub const INTERVAL_SLOT: &'static str = r##"= Number("__MONITOR_REFRESH_MS__")"##;

/// From the polling interval to the end.
pub const SCRIPT_PART: &'static str = r##";
const limit = 60;
const trends = {};
const store = window.localStorage;
let span = store.getItem("monitor-window") || "60";
let filter = "all";
let latest = null;

const by = (id) => document.getElementById(id);
const show = (id, text) => { by(id).textContent = text; };
const known = (value) => value !== null && value !== undefined;
const percent = (value) => known(value) ? value.toFixed(1) + "%" : "-";
const share = (value) => known(value) ? (value * 100).toFixed(2) + "%" : "-";
const count = (value) => known(value) ? String(value) : "-";
const nanos = (value) => !known(value) ? "-" : value < 1000 ? value + " ns" : value < 1000000 ? (value / 1000).toFixed(1) + " us" : value < 1000000000 ? (value / 1000000).toFixed(1) + " ms" : (value / 1000000000).toFixed(2) + " s";
const bytes = (value) => {
  if (!known(value)) return "-";
  const units = ["B", "KiB", "MiB", "GiB", "TiB"];
  let step = 0;
  while (value >= 1024 && step < units.length - 1) { value /= 1024; step += 1; }
  return value.toFixed(step === 0 ? 0 : 1) + " " + units[step];
};

function draw(id, points) {
  const canvas = by(id);
  const scale = window.devicePixelRatio || 1;
  canvas.width = canvas.clientWidth * scale;
  canvas.height = canvas.clientHeight * scale;
  const pen = canvas.getContext("2d");
  const values = points.filter(known);
  const top = Math.max(1, ...values);
  pen.strokeStyle = getComputedStyle(document.documentElement).getPropertyValue("--accent");
  pen.lineWidth = 2 * scale;
  pen.beginPath();
  let down = false;
  points.forEach((value, index) => {
    if (!known(value)) { down = false; return; }
    const x = canvas.width * index / Math.max(1, points.length - 1);
    const y = canvas.height - (canvas.height - 4 * scale) * value / top - 2 * scale;
    if (down) { pen.lineTo(x, y); } else { pen.moveTo(x, y); down = true; }
  });
  pen.stroke();
}

function trend(id, value) {
  const points = trends[id] || (trends[id] = []);
  points.push(known(value) ? value : null);
  while (points.length > limit) points.shift();
  draw(id, points);
}

function renderEndpoints(list) {
  const box = by("endpoints");
  box.textContent = "";
  const rows = list.filter((row) => filter === "all" || row.windows[span].status[filter] > 0);
  const most = Math.max(1, ...rows.map((row) => row.windows[span].requests));
  for (const row of rows) {
    const view = row.windows[span];
    const line = document.createElement("div");
    line.className = "endpoint";
    const part = (name, text) => {
      const cell = document.createElement("span");
      cell.className = name;
      cell.textContent = text;
      line.appendChild(cell);
    };
    part("endpoint-count", String(view.requests));
    part("endpoint-live", row.in_flight > 0 ? row.in_flight + " live" : "");
    part("endpoint-path", row.method + " " + row.path);
    const bar = document.createElement("span");
    bar.className = "endpoint-bar";
    bar.style.width = 120 * view.requests / most + "px";
    bar.style.background = view.status["5xx"] > 0 ? "var(--bad)" : view.status["4xx"] > 0 ? "var(--warn)" : view.status["3xx"] > 0 ? "var(--info)" : "var(--good)";
    line.appendChild(bar);
    part("endpoint-stats", row.windows["30"].rps.toFixed(2) + " / " + row.windows["60"].rps.toFixed(2) + " qps, P50 " + nanos(view.latency.p50_ns) + ", P99 " + nanos(view.latency.p99_ns) + ", P999 " + nanos(view.latency.p999_ns));
    box.appendChild(line);
  }
}

function renderHttp(http) {
  const view = http.windows[span];
  show("http-rps", view.rps.toFixed(2));
  show("http-p50", nanos(view.latency.p50_ns));
  show("http-p95", nanos(view.latency.p95_ns));
  show("http-p99", nanos(view.latency.p99_ns));
  show("http-p999", nanos(view.latency.p999_ns));
  show("http-4xx", share(view.rates["4xx"]));
  show("http-5xx", share(view.rates["5xx"]));
  show("http-requests", count(http.requests));
  show("http-live", count(http.in_flight));
  for (const name of ["1xx", "2xx", "3xx", "4xx", "5xx"]) show("status-" + name, count(view.status[name]));
  draw("chart-rps", http.series.slice(-Number(span)).map((point) => point.requests));
  renderEndpoints(http.endpoints);
}

function render(data) {
  latest = data;
  const process = data.process, runtime = data.runtime, system = data.system;
  show("process-cpu", percent(process.cpu_percent));
  show("process-rss", bytes(process.rss_bytes));
  show("process-threads", count(process.threads));
  show("process-descriptors", count(process.open_descriptors));
  show("process-uptime", count(process.uptime_seconds) + " s");
  show("runtime-tasks", count(runtime.goroutines));
  show("runtime-workers", count(runtime.workers));
  show("heap-alloc", bytes(runtime.heap_alloc_bytes));
  show("heap-inuse", bytes(runtime.heap_inuse_bytes));
  show("heap-idle", bytes(runtime.heap_idle_bytes));
  show("heap-released", bytes(runtime.heap_released_bytes));
  show("heap-resident", bytes(Math.max(0, runtime.heap_sys_bytes - runtime.heap_released_bytes)));
  show("heap-sys", bytes(runtime.heap_sys_bytes));
  show("system-cpu", percent(system.cpu_percent));
  show("system-memory", percent(system.memory_used_percent));
  show("system-network", bytes(system.network_receive_bps) + "/s in, " + bytes(system.network_send_bps) + "/s out");
  show("disk-used", percent(system.disk_used_percent));
  show("disk-free", bytes(system.disk_free_bytes));
  show("disk-total", bytes(system.disk_total_bytes));
  show("disk-type", system.disk_fstype || "-");
  show("system-load", known(system.load1) ? [system.load1, system.load5, system.load15].map((value) => value.toFixed(2)).join(" ") : "-");
  trend("chart-process-cpu", process.cpu_percent);
  trend("chart-process-rss", process.rss_bytes);
  trend("chart-tasks", runtime.goroutines);
  trend("chart-system-cpu", system.cpu_percent);
  trend("chart-system-memory", system.memory_used_percent);
  trend("chart-network", system.network_receive_bps);
  by("notice").hidden = !data.collection.partial;
  show("notice", "Not available: " + data.collection.errors.join(", "));
  renderHttp(data.http);
}

async function poll() {
  try {
    const response = await fetch(window.document.URL, { headers: { Accept: "application/json" }, cache: "no-store" });
    if (response.ok) render(await response.json());
  } finally {
    setTimeout(poll, refreshMs);
  }
}

function choose(attribute, value) {
  document.querySelectorAll("[" + attribute + "]").forEach((item) => item.classList.toggle("active", item.getAttribute(attribute) === value));
}

document.querySelectorAll("[data-tab]").forEach((item) => item.addEventListener("click", () => {
  const name = item.getAttribute("data-tab");
  choose("data-tab", name);
  choose("data-page", name);
  if (latest) renderHttp(latest.http);
}));
document.querySelectorAll("[data-window]").forEach((item) => item.addEventListener("click", () => {
  span = item.getAttribute("data-window");
  store.setItem("monitor-window", span);
  choose("data-window", span);
  if (latest) renderHttp(latest.http);
}));
document.querySelectorAll("[data-filter]").forEach((item) => item.addEventListener("click", () => {
  filter = item.getAttribute("data-filter");
  choose("data-filter", filter);
  if (latest) renderHttp(latest.http);
}));
by("theme").addEventListener("click", () => {
  const root = document.documentElement;
  root.dataset.theme = root.dataset.theme === "dark" ? "light" : "dark";
  store.setItem("monitor-theme", root.dataset.theme);
});
if (store.getItem("monitor-theme")) document.documentElement.dataset.theme = store.getItem("monitor-theme");
choose("data-window", span);
poll();
</script>
</body>
</html>
"##;

/// The whole page.
pub open spec fn dashboard() -> Seq<char> {
    HEAD_PART@ + TITLE_SLOT@ + HEAD_END_PART@ + ICON_SLOT@ + STYLE_PART@ + HEADING_SLOT@ + TABS_PART@ + DESCRIPTION_SLOT@ + PROCESS_PART@ + NUMBER_SLOT@ + PROCESS_FIGURES_PART@ + DESCRIPTORS_SLOT@ + FIGURES_PART@ + FOOTER_SLOT@ + SCRIPT_START_PART@ + INTERVAL_SLOT@ + SCRIPT_PART@
}

/// Puts the page together.
pub fn dashboard_page() -> (page: Vec<char>)
    ensures
        page@ == dashboard(),
{
    let mut page = chars_of(HEAD_PART);
    append(&mut page, chars_of(TITLE_SLOT).as_slice());
    append(&mut page, chars_of(HEAD_END_PART).as_slice());
    append(&mut page, chars_of(ICON_SLOT).as_slice());
    append(&mut page, chars_of(STYLE_PART).as_slice());
    append(&mut page, chars_of(HEADING_SLOT).as_slice());
    append(&mut page, chars_of(TABS_PART).as_slice());
    append(&mut page, chars_of(DESCRIPTION_SLOT).as_slice());
    append(&mut page, chars_of(PROCESS_PART).as_slice());
    append(&mut page, chars_of(NUMBER_SLOT).as_slice());
    append(&mut page, chars_of(PROCESS_FIGURES_PART).as_slice());
    append(&mut page, chars_of(DESCRIPTORS_SLOT).as_slice());
    append(&mut page, chars_of(FIGURES_PART).as_slice());
    append(&mut page, chars_of(FOOTER_SLOT).as_slice());
    append(&mut page, chars_of(SCRIPT_START_PART).as_slice());
    append(&mut page, chars_of(INTERVAL_SLOT).as_slice());
    append(&mut page, chars_of(SCRIPT_PART).as_slice());
    page
}

} // verus!
