//! What stands at the top and at the bottom of every page.
use vstd::prelude::*;

verus! {

/// Everything up to the start of the body.
pub const PAGE_HEAD: &'static str = r#"<!doctype html>
<html lang="en">
<head>
<meta charset="utf-8">
<title>branchd</title>
<style>
  :root { color-scheme: light dark; }
  body { font: 14px/1.4 -apple-system, BlinkMacSystemFont, "Segoe UI", system-ui, sans-serif;
         max-width: 960px; margin: 2rem auto; padding: 0 1rem; }
  h1 { margin: 0 0 .25rem 0; }
  h2 a { color: inherit; text-decoration: none; }
  h2 a:hover { text-decoration: underline; }
  nav.top { display: flex; gap: 1rem; align-items: baseline; margin-bottom: .75rem;
            padding-bottom: .5rem; border-bottom: 1px solid #ddd3; }
  nav.top .brand { font-weight: 700; font-size: 1.1rem; color: inherit; text-decoration: none; }
  nav.top .navlink { color: #888; text-decoration: none; }
  nav.top .navlink.active { color: inherit; font-weight: 600; }
  nav.top .navlink:hover { color: inherit; }
  nav.top .sync { margin-left: auto; display: inline-flex; align-items: center; gap: .5rem;
                  font-size: .85em; color: #888; }
  nav.top .sync-time { font-variant-numeric: tabular-nums; }
  button.resync { font: inherit; font-size: .85em; padding: .15rem .5rem; cursor: pointer;
                  border: 1px solid #8884; background: #8881; color: inherit;
                  border-radius: 4px; }
  button.resync:hover:not(:disabled) { background: #8882; }
  button.resync:disabled { cursor: progress; opacity: .7; }
  ul.source-list { list-style: none; padding-left: 1rem; margin: .25rem 0 .75rem; }
  ul.source-list li { padding: .1rem 0; }
  .wschip { display: inline-block; padding: 0 .35rem; margin-left: .25rem;
            background: #4a90e222; color: #4a90e2; border-radius: 4px; font-size: .8em;
            text-decoration: none; font-weight: 600; }
  .wschip:hover { background: #4a90e244; }
  h2 { margin: 1.5rem 0 .25rem 0; font-size: 1.15rem; }
  h3 { margin: .75rem 0 .25rem 0; font-size: 1rem; font-weight: 600; }
  .sub { color: #777; margin: 0 0 .5rem 0; }
  code { font-family: ui-monospace, "SF Mono", Menlo, monospace; font-size: .9em; }
  .ws { border-top: 1px solid #ddd3; padding-top: .5rem; margin-top: 1rem; }
  .repo { margin-left: .5rem; padding: .25rem .5rem .5rem; border-left: 2px solid #ccc4; }
  .stack { margin: .25rem 0; }
  .row { display: block; font: 13px/1.2 ui-monospace, "SF Mono", Menlo, monospace;
         padding: 1px 4px; border-radius: 3px; color: inherit; text-decoration: none;
         white-space: pre; }
  .row.commit { padding: 2px 4px; }
  .row .linked { color: inherit; text-decoration: none; display: inline; }
  .row .linked:hover { background: #2da44e18; border-radius: 3px; }
  .row.connector { color: #888; }
  .graph { color: #888; white-space: pre; }
  .id { color: #888; margin-right: .35rem; }
  .title { white-space: pre-wrap; }
  .pr { padding: 0 .35rem; margin-left: .35rem; border-radius: 4px;
        background: #2da44e22; color: #2da44e; font-weight: 600; font-size: .9em; }
  .pr.draft { background: #8884; color: #777; }
  .pr.merged { background: #8250df22; color: #8250df; }
  .pr.closed { background: #cf222e22; color: #cf222e; }
  .pr .check { margin-left: .25rem; font-weight: 700; }
  .controls { display: flex; gap: 1rem; align-items: center; margin: 0 0 .75rem;
              font-size: .9em; color: #888; }
  .controls label { cursor: pointer; user-select: none; }
  .copy-wrap { margin: 0 0 .75rem; }
  button.copy-md { font: inherit; font-size: .85em; padding: .25rem .6rem; cursor: pointer;
                   border: 1px solid #8884; background: #8881; color: inherit;
                   border-radius: 4px; }
  button.copy-md:hover { background: #8882; }
  button.copy-md.copied { background: #2da44e22; border-color: #2da44e88; color: #2da44e; }
  body.hide-drafts .row.commit[data-draft="true"] { display: none; }
  body.hide-empty .row.commit[data-empty="true"] { display: none; }
  .nopr { color: #aaa; font-style: italic; }
  .badge { background: #8884; color: #444; padding: 0 .35rem; border-radius: 4px;
           font-size: .75em; vertical-align: middle; margin-left: .25rem; }
  .empty { color: #999; font-style: italic; }
  .empty-tag { color: #aa6; font-size: .75em; margin-left: .25rem; }
  .err { color: #c33; }
  @media (prefers-color-scheme: dark) {
    body { background: #111; color: #ddd; }
    .sub, .empty { color: #999; }
    .id { color: #888; }
    .badge { color: #ccc; }
  }
</style>
</head>
<body>
"#;

/// The script and the end of the page.
pub const PAGE_TAIL: &'static str = r#"<script>
(function() {
  // Default both filters ON (drafts + empties hidden). User preference
  // persists in localStorage across requests/page loads.
  function load(key, def) {
    var v = localStorage.getItem(key);
    return v === null ? def : v === "1";
  }
  function save(key, val) { localStorage.setItem(key, val ? "1" : "0"); }
  function apply(showDrafts, showEmpty) {
    document.body.classList.toggle("hide-drafts", !showDrafts);
    document.body.classList.toggle("hide-empty", !showEmpty);
  }
  var sd = load("branchd.showDrafts", false);
  var se = load("branchd.showEmpty", false);
  var cbD = document.getElementById("show-drafts");
  var cbE = document.getElementById("show-empty");
  if (cbD) { cbD.checked = sd; cbD.addEventListener("change", function() { save("branchd.showDrafts", cbD.checked); apply(cbD.checked, cbE && cbE.checked); }); }
  if (cbE) { cbE.checked = se; cbE.addEventListener("change", function() { save("branchd.showEmpty", cbE.checked); apply(cbD && cbD.checked, cbE.checked); }); }
  apply(sd, se);

  // Copy-as-markdown button: reads textContent from the hidden <pre> it
  // points at, optionally strips draft lines (matching the show-drafts
  // checkbox), and writes to the clipboard. Falls back to a textarea +
  // execCommand when the page isn't served over HTTPS (clipboard API
  // requires a secure context — branchd is HTTP-on-tailscale).
  function filterMarkdown(text, hideDrafts) {
    if (!hideDrafts) return text;
    // Split into blank-line-separated blocks; each block has an optional
    // header line followed by `- ` bullets. Drop draft bullets (lines ending
    // in `` `draft` ``); drop a block entirely if no bullets remain.
    var blocks = text.split(/\n[ \t]*\n/);
    var kept = [];
    for (var i = 0; i < blocks.length; i++) {
      var lines = blocks[i].split("\n").filter(function(l) { return l.length > 0; });
      var headers = [], bullets = [];
      for (var j = 0; j < lines.length; j++) {
        (lines[j].indexOf("- ") === 0 ? bullets : headers).push(lines[j]);
      }
      var keptBullets = bullets.filter(function(l) {
        return !/`draft`\s*$/.test(l);
      });
      if (keptBullets.length === 0 && bullets.length > 0) continue;
      kept.push(headers.concat(keptBullets).join("\n"));
    }
    return kept.join("\n\n") + (text.endsWith("\n") ? "\n" : "");
  }

  // Resync button: POST /resync, then reload so the new badge data appears.
  // Disables the button + swaps label while the request is in flight; multiple
  // /resync calls serialize server-side via the refresh lock.
  document.querySelectorAll("button.resync").forEach(function(btn) {
    btn.addEventListener("click", function() {
      var orig = btn.textContent;
      btn.disabled = true;
      btn.textContent = "Syncing…";
      fetch("/resync", { method: "POST" })
        .then(function(r) {
          if (!r.ok) throw new Error("resync " + r.status);
          location.reload();
        })
        .catch(function(e) {
          btn.disabled = false;
          btn.textContent = orig;
          console.error(e);
        });
    });
  });

  document.querySelectorAll("button.copy-md").forEach(function(btn) {
    btn.addEventListener("click", function() {
      var target = document.getElementById(btn.dataset.target);
      if (!target) return;
      var hideDrafts = !!cbD && !cbD.checked;
      var text = filterMarkdown(target.textContent, hideDrafts);
      var done = function() {
        var orig = btn.textContent;
        btn.textContent = "Copied!";
        btn.classList.add("copied");
        setTimeout(function() { btn.textContent = orig; btn.classList.remove("copied"); }, 1200);
      };
      var fallback = function() {
        var ta = document.createElement("textarea");
        ta.value = text;
        ta.style.position = "fixed"; ta.style.opacity = "0";
        document.body.appendChild(ta);
        ta.select();
        try { document.execCommand("copy"); done(); } catch (e) {}
        document.body.removeChild(ta);
      };
      if (navigator.clipboard && window.isSecureContext) {
        navigator.clipboard.writeText(text).then(done, fallback);
      } else {
        fallback();
      }
    });
  });
})();
</script>
</body></html>
"#;

} // verus!
