//! The config page itself.

use vstd::prelude::*;

verus! {

/// The page that edits the action set and the settings of voxtype. It holds no
/// state of its own: what it shows is what the files say.
pub const PAGE: &'static str = r##"<!doctype html>
<html lang="en">
<head>
<meta charset="utf-8">
<title>voxtype-review</title>
<style>
body { font: 15px/1.45 system-ui, sans-serif; margin: 2rem auto; max-width: 60rem; padding: 0 1rem; }
h1 { font-size: 1.3rem; }
h2 { font-size: 1.05rem; margin-top: 2rem; }
.row { border: 1px solid #ccc; border-radius: 6px; padding: .6rem; margin: .5rem 0; }
.row input, .row textarea { font: 13px monospace; width: 100%; box-sizing: border-box; margin: .15rem 0; }
.row .small { width: 8rem; }
.warn { color: #a40; }
.bad { color: #b00; white-space: pre-wrap; }
.good { color: #070; }
.weak { color: #666; }
</style>
</head>
<body>
<h1>voxtype-review</h1>
<p class="weak" id="where"></p>
<ul class="warn" id="warnings"></ul>

<h2>Actions</h2>
<div id="actions"></div>
<p>
<button id="add">Add an action</button>
<button id="defaults">Fill in the built-in actions</button>
<button id="save">Save</button>
<span id="saved"></span>
</p>
<p class="weak">Saving rewrites the file from this list, so comments in it do not survive. The file
as it was is kept beside it with the extension toml.bak.</p>

<h2>Try a command</h2>
<div class="row">
<textarea id="sample" rows="2">so um this is a test</textarea>
<pre id="tried"></pre>
</div>

<h2>Voxtype</h2>
<p class="weak" id="voxpath"></p>
<div id="settings"></div>

<script>
const $ = (id) => document.getElementById(id);
let actions = [];

async function get(url) { return (await fetch(url)).json(); }
async function post(url, body) {
  return (await fetch(url, { method: "POST", body: JSON.stringify(body) })).json();
}

function quote(s) {
  return '"' + String(s).replace(/\\/g, "\\\\").replace(/"/g, '\\"')
    .replace(/\n/g, "\\n").replace(/\r/g, "\\r").replace(/\t/g, "\\t") + '"';
}

function toToml() {
  return actions.map((a) => "[[actions]]\n"
    + (a.key ? "key = " + quote(a.key) + "\n" : "")
    + "label = " + quote(a.label) + "\n"
    + "command = " + quote(a.command) + "\n"
    + (a.timeout_ms ? "timeout_ms = " + Number(a.timeout_ms) + "\n" : "")).join("\n");
}

function input(a, name, cls) {
  const e = document.createElement(name === "command" ? "textarea" : "input");
  e.value = a[name] === undefined ? "" : a[name];
  e.placeholder = name;
  if (cls) e.className = cls;
  e.oninput = () => { a[name] = e.value; };
  return e;
}

function button(text, run) {
  const b = document.createElement("button");
  b.textContent = text;
  b.onclick = run;
  return b;
}

function draw() {
  const box = $("actions");
  box.replaceChildren();
  actions.forEach((a, i) => {
    const row = document.createElement("div");
    row.className = "row";
    row.append(input(a, "label"), input(a, "key", "small"), input(a, "timeout_ms", "small"),
      input(a, "command"),
      button("Try", () => tryOut(a)),
      button("Remove", () => { actions.splice(i, 1); draw(); }));
    box.append(row);
  });
}

async function tryOut(a) {
  $("tried").textContent = "running ...";
  const r = await post("/api/test",
    { command: a.command, text: $("sample").value, timeout_ms: String(a.timeout_ms || "") });
  $("tried").textContent = r.ok === false ? r.error
    : r.failed ? "failed: " + r.error : r.output;
}

async function load() {
  const s = await get("/api/state");
  $("where").textContent = s.path + (s.exists ? "" : " (absent)")
    + (s.using_defaults ? " - showing the built-in actions" : "")
    + " - " + s.wire_msg + " - xdotool " + (s.xdotool ? "found" : "missing")
    + ", ollama " + (s.ollama ? "found" : "missing");
  $("warnings").replaceChildren(...s.warnings.map((w) => {
    const li = document.createElement("li");
    li.textContent = w;
    return li;
  }));
  actions = s.actions;
  draw();
}

async function loadVoxtype() {
  const v = await get("/api/voxtype");
  $("voxpath").textContent = v.path + (v.ok ? "" : " - " + v.error);
  $("settings").replaceChildren(...v.settings.map((s) => {
    const row = document.createElement("div");
    row.className = "row";
    const name = document.createElement("strong");
    name.textContent = s.id;
    const help = document.createElement("div");
    help.className = "weak";
    help.textContent = s.help;
    const said = document.createElement("span");
    const field = input(s, "value");
    row.append(name, field, button("Save", async () => {
      const r = await post("/api/voxtype/save", { id: s.id, value: s.value });
      said.className = r.ok ? "good" : "bad";
      said.textContent = r.ok ? r.message : r.error;
    }), said, help);
    return row;
  }));
}

$("add").onclick = () => { actions.push({ key: "", label: "", command: "" }); draw(); };
$("defaults").onclick = async () => { actions = (await get("/api/defaults")).actions; draw(); };
$("save").onclick = async () => {
  const r = await post("/api/save", { toml: toToml() });
  $("saved").className = r.ok ? "good" : "bad";
  $("saved").textContent = r.ok ? "saved " + r.count + " actions to " + r.path
    : [r.error].concat(r.detail || []).join("\n");
  if (r.ok) load();
};

load();
loadVoxtype();
</script>
</body>
</html>
"##;

} // verus!
