//! The web page that the server shows.

use vstd::prelude::*;

use crate::numeral::{decimal, is_digit, lemma_decimal_digits, push_decimal};
use crate::text::{has, occurs_at};

verus! {

/// The page up to the level in its title.
pub const PAGE_TITLE: &'static str = r##"<!doctype html><html lang="ja"><head><meta charset="utf-8" />
<meta name="viewport" content="width=device-width,initial-scale=1" />
<title>SPE6103 Lv"##;

/// The page from its title to the level in its heading.
pub const PAGE_HEADING: &'static str = r##"</title>
<style>body{font-family:system-ui,sans-serif;margin:16px}#v{font-size:40px;font-weight:bold}#mode{font-size:24px}button{padding:10px 16px;margin:4px}input{width:90px;padding:8px}</style>
</head><body><h2>SPE6103 サーバー (Lv"##;

/// The page from its heading to the controls.
pub const PAGE_READINGS: &'static str = r##")</h2>
<div id="v">-- V / -- A / -- W</div><div id="mode">--</div><div id="op"></div>
<div>"##;

/// The page from the controls to its end.
pub const PAGE_SCRIPT: &'static str = r##"</div>
<script>
const tok = new URLSearchParams(location.search).get('token') || '';
async function st(){
  try{
    const r = await fetch('/api/status'); const s = await r.json();
    document.getElementById('v').textContent = s.meas_volt + ' V / ' + s.meas_curr + ' A / ' + s.meas_pow + ' W';
    document.getElementById('mode').textContent = s.info + ' / ' + s.outp + ' (設定' + s.set_volt + 'V/' + s.set_curr + 'A)';
  }catch(e){ document.getElementById('mode').textContent = '無応答'; }
}
async function post(path, body){
  const q = tok ? '?token=' + encodeURIComponent(tok) : '';
  const r = await fetch(path + q, { method: 'POST', headers: { 'Content-Type': 'application/json', 'X-Token': tok }, body: JSON.stringify(body) });
  document.getElementById('op').textContent = r.status + ' ' + (await r.text());
  st();
}
setInterval(st, 2000); st();
</script></body></html>"##;

/// The controls that the page offers at a level: none, switching off, or all.
pub open spec fn controls(level: u8) -> Seq<char> {
    if level == 0 {
        "<p>監視のみ</p>"@
    } else if level == 1 {
        "<button onclick=\"post('/api/outp',{on:false})\">出力OFF</button>"@
    } else {
        "<button onclick=\"post('/api/outp',{on:true})\">出力ON</button><button onclick=\"post('/api/outp',{on:false})\">出力OFF</button><br />V <input id=\"v\" type=\"number\" step=\"0.01\" /> A <input id=\"a\" type=\"number\" step=\"0.001\" /><button onclick=\"post('/api/apply',{volt:parseFloat(document.getElementById('v').value),curr:parseFloat(document.getElementById('a').value)})\">適用</button>"@
    }
}

/// The controls that the page offers at a level.
pub fn controls_html(level: u8) -> (s: &'static str)
    ensures
        s@ == controls(level),
{
    match level {
        0 => "<p>監視のみ</p>",
        1 => "<button onclick=\"post('/api/outp',{on:false})\">出力OFF</button>",
        _ => "<button onclick=\"post('/api/outp',{on:true})\">出力ON</button><button onclick=\"post('/api/outp',{on:false})\">出力OFF</button><br />V <input id=\"v\" type=\"number\" step=\"0.01\" /> A <input id=\"a\" type=\"number\" step=\"0.001\" /><button onclick=\"post('/api/apply',{volt:parseFloat(document.getElementById('v').value),curr:parseFloat(document.getElementById('a').value)})\">適用</button>",
    }
}

/// The page at a level.
pub open spec fn page(level: u8) -> Seq<char> {
    PAGE_TITLE@ + decimal(level as nat) + PAGE_HEADING@ + decimal(level as nat) + PAGE_READINGS@
        + controls(level) + PAGE_SCRIPT@
}

/// The page at a level.
pub fn page_html(level: u8) -> (s: String)
    ensures
        s@ == page(level),
{
    let mut s: String = PAGE_TITLE.to_string();
    push_decimal(&mut s, level as u64);
    s.append(PAGE_HEADING);
    push_decimal(&mut s, level as u64);
    s.append(PAGE_READINGS);
    s.append(controls_html(level));
    s.append(PAGE_SCRIPT);
    s
}

// What the page holds.

/// Neither the characters that label the switches nor those that label the
/// setting of values stand in the text.
pub open spec fn without_labels(s: Seq<char>) -> bool {
    forall|i: int| 0 <= i < s.len() ==> #[trigger] s[i] != '出' && s[i] != '適'
}

proof fn lemma_page_title_without_labels()
    ensures
        without_labels(PAGE_TITLE@),
{
    reveal_strlit(r##"<!doctype html><html lang="ja"><head><meta charset="utf-8" />
<meta name="viewport" content="width=device-width,initial-scale=1" />
<title>SPE6103 Lv"##);
}

proof fn lemma_page_heading_without_labels()
    ensures
        without_labels(PAGE_HEADING@),
{
    reveal_strlit(r##"</title>
<style>body{font-family:system-ui,sans-serif;margin:16px}#v{font-size:40px;font-weight:bold}#mode{font-size:24px}button{padding:10px 16px;margin:4px}input{width:90px;padding:8px}</style>
</head><body><h2>SPE6103 サーバー (Lv"##);
}

proof fn lemma_page_readings_without_labels()
    ensures
        without_labels(PAGE_READINGS@),
{
    reveal_strlit(r##")</h2>
<div id="v">-- V / -- A / -- W</div><div id="mode">--</div><div id="op"></div>
<div>"##);
}

proof fn lemma_page_script_without_labels()
    ensures
        without_labels(PAGE_SCRIPT@),
{
    reveal_strlit(r##"</div>
<script>
const tok = new URLSearchParams(location.search).get('token') || '';
async function st(){
  try{
    const r = await fetch('/api/status'); const s = await r.json();
    document.getElementById('v').textContent = s.meas_volt + ' V / ' + s.meas_curr + ' A / ' + s.meas_pow + ' W';
    document.getElementById('mode').textContent = s.info + ' / ' + s.outp + ' (設定' + s.set_volt + 'V/' + s.set_curr + 'A)';
  }catch(e){ document.getElementById('mode').textContent = '無応答'; }
}
async function post(path, body){
  const q = tok ? '?token=' + encodeURIComponent(tok) : '';
  const r = await fetch(path + q, { method: 'POST', headers: { 'Content-Type': 'application/json', 'X-Token': tok }, body: JSON.stringify(body) });
  document.getElementById('op').textContent = r.status + ' ' + (await r.text());
  st();
}
setInterval(st, 2000); st();
</script></body></html>"##);
}

/// The page before its controls.
pub open spec fn page_head(level: u8) -> Seq<char> {
    PAGE_TITLE@ + decimal(level as nat) + PAGE_HEADING@ + decimal(level as nat) + PAGE_READINGS@
}

proof fn lemma_without_labels_sum(a: Seq<char>, b: Seq<char>)
    requires
        without_labels(a),
        without_labels(b),
    ensures
        without_labels(a + b),
{
    let s = a + b;
    assert forall|i: int| 0 <= i < s.len() implies #[trigger] s[i] != '出' && s[i] != '適' by {
        if i < a.len() {
            assert(s[i] == a[i]);
        } else {
            assert(s[i] == b[i - a.len()]);
        }
    }
}

proof fn lemma_labels_are_in_the_controls(level: u8)
    ensures
        page(level) == page_head(level) + controls(level) + PAGE_SCRIPT@,
        without_labels(page_head(level)),
        without_labels(PAGE_SCRIPT@),
{
    lemma_page_title_without_labels();
    lemma_page_heading_without_labels();
    lemma_page_readings_without_labels();
    lemma_page_script_without_labels();
    let d = decimal(level as nat);
    lemma_decimal_digits(level as nat);
    assert(without_labels(d)) by {
        assert forall|i: int| 0 <= i < d.len() implies #[trigger] d[i] != '出' && d[i] != '適' by {
            assert(is_digit(d[i]));
        }
    }
    lemma_without_labels_sum(PAGE_TITLE@, d);
    lemma_without_labels_sum(PAGE_TITLE@ + d, PAGE_HEADING@);
    lemma_without_labels_sum(PAGE_TITLE@ + d + PAGE_HEADING@, d);
    lemma_without_labels_sum(PAGE_TITLE@ + d + PAGE_HEADING@ + d, PAGE_READINGS@);
}

/// What stands in a part stands in the whole, as far from the beginning of the
/// part.
proof fn lemma_stands_in_the_whole(a: Seq<char>, c: Seq<char>, b: Seq<char>, p: Seq<char>, i: int)
    requires
        occurs_at(c, p, i),
    ensures
        occurs_at(a + c + b, p, a.len() + i),
{
    let k = a.len() + i;
    assert((a + c + b).subrange(k, k + p.len()) =~= c.subrange(i, i + p.len()));
}

/// Where the labels stand among the controls, and what stands right before them.
proof fn lemma_labels_of_the_controls(level: u8)
    ensures
        level == 0 ==> without_labels(controls(level)),
        level == 1 ==> occurs_at(controls(level), "post('/api/outp',{on:false})\">出力OFF</button>"@, 17),
        level >= 2 ==> occurs_at(controls(level), "post('/api/outp',{on:true})\">出力ON</button>"@, 17),
        level >= 2 ==> occurs_at(controls(level), "post('/api/outp',{on:false})\">出力OFF</button>"@, 76),
        level >= 2 ==> occurs_at(controls(level), "V <input id=\"v\" type=\"number\" step=\"0.01\" />"@, 126),
        level >= 2 ==> occurs_at(controls(level), "A <input id=\"a\" type=\"number\" step=\"0.001\" />"@, 171),
        level >= 2 ==> occurs_at(controls(level), "post('/api/apply',{volt:parseFloat(document.getElementById('v').value),curr:parseFloat(document.getElementById('a').value)})\">適用</button>"@, 233),
        level == 1 ==> forall|i: int|
            0 <= i < controls(level).len() ==> (#[trigger] controls(level)[i] == '出' ==> i == 47) && controls(level)[i] != '適',
        level >= 2 ==> forall|i: int|
            0 <= i < controls(level).len() ==> (#[trigger] controls(level)[i] == '出' ==> i == 46 || i == 106) && (controls(
                level,
            )[i] == '適' ==> i == 359),
        level == 1 ==> controls(level).len() == 61,
        level >= 2 ==> controls(level).len() == 370,
        level >= 2 ==> controls(level)[49] == 'N',
        level >= 2 ==> controls(level)[109] == 'F',
        level == 1 ==> controls(level)[50] == 'F',
        level == 1 ==> occurs_at(controls(level), "{on:false})\">"@, 34),
        level >= 2 ==> occurs_at(controls(level), "{on:false})\">"@, 93),
        level >= 2 ==> occurs_at(controls(level), "{on:true})\">"@, 34),
        level >= 2 ==> occurs_at(controls(level), "post('/api/apply',{volt:parseFloat(document.getElementById('v').value),curr:parseFloat(document.getElementById('a').value)})\">"@, 233),
{
    reveal_strlit("<p>監視のみ</p>");
    reveal_strlit("<button onclick=\"post('/api/outp',{on:false})\">出力OFF</button>");
    reveal_strlit("<button onclick=\"post('/api/outp',{on:true})\">出力ON</button><button onclick=\"post('/api/outp',{on:false})\">出力OFF</button><br />V <input id=\"v\" type=\"number\" step=\"0.01\" /> A <input id=\"a\" type=\"number\" step=\"0.001\" /><button onclick=\"post('/api/apply',{volt:parseFloat(document.getElementById('v').value),curr:parseFloat(document.getElementById('a').value)})\">適用</button>");
    reveal_strlit("post('/api/outp',{on:true})\">出力ON</button>");
    reveal_strlit("post('/api/outp',{on:false})\">出力OFF</button>");
    reveal_strlit("V <input id=\"v\" type=\"number\" step=\"0.01\" />");
    reveal_strlit("A <input id=\"a\" type=\"number\" step=\"0.001\" />");
    reveal_strlit("post('/api/apply',{volt:parseFloat(document.getElementById('v').value),curr:parseFloat(document.getElementById('a').value)})\">適用</button>");
    reveal_strlit("{on:false})\">");
    reveal_strlit("{on:true})\">");
    reveal_strlit("post('/api/apply',{volt:parseFloat(document.getElementById('v').value),curr:parseFloat(document.getElementById('a').value)})\">");
    let c = controls(level);
    if level == 1 {
        assert(c.subrange(17, 61) =~= "post('/api/outp',{on:false})\">出力OFF</button>"@);
        assert(c.subrange(34, 47) =~= "{on:false})\">"@);
    }
    if level >= 2 {
        assert(c.subrange(17, 59) =~= "post('/api/outp',{on:true})\">出力ON</button>"@);
        assert(c.subrange(76, 120) =~= "post('/api/outp',{on:false})\">出力OFF</button>"@);
        assert(c.subrange(126, 170) =~= "V <input id=\"v\" type=\"number\" step=\"0.01\" />"@);
        assert(c.subrange(171, 216) =~= "A <input id=\"a\" type=\"number\" step=\"0.001\" />"@);
        assert(c.subrange(233, 370) =~= "post('/api/apply',{volt:parseFloat(document.getElementById('v').value),curr:parseFloat(document.getElementById('a').value)})\">適用</button>"@);
        assert(c.subrange(93, 106) =~= "{on:false})\">"@);
        assert(c.subrange(34, 46) =~= "{on:true})\">"@);
        assert(c.subrange(233, 359) =~= "post('/api/apply',{volt:parseFloat(document.getElementById('v').value),curr:parseFloat(document.getElementById('a').value)})\">"@);
    }
}

/// Each button does what its label says. Above level 0 the page has one that
/// switches off, labelled so; from level 2 on it has one that switches on, and one
/// that sets what is written into its two fields. No button with such a label
/// does anything else, and none stands on the page of a level that may not use it.
pub proof fn law_buttons_do_what_their_labels_say(level: u8)
    ensures
        level > 0 ==> has(page(level), "post('/api/outp',{on:false})\">出力OFF</button>"@),
        level >= 2 ==> has(page(level), "post('/api/outp',{on:true})\">出力ON</button>"@),
        level >= 2 ==> has(page(level), "V <input id=\"v\" type=\"number\" step=\"0.01\" />"@),
        level >= 2 ==> has(page(level), "A <input id=\"a\" type=\"number\" step=\"0.001\" />"@),
        level >= 2 ==> has(page(level), "post('/api/apply',{volt:parseFloat(document.getElementById('v').value),curr:parseFloat(document.getElementById('a').value)})\">適用</button>"@),
        forall|i: int| #[trigger]
            occurs_at(page(level), "出力OFF"@, i) ==> level > 0 && occurs_at(page(level), "{on:false})\">"@, i - 13),
        forall|i: int| #[trigger]
            occurs_at(page(level), "出力ON"@, i) ==> level >= 2 && occurs_at(page(level), "{on:true})\">"@, i - 12),
        forall|i: int| #[trigger]
            occurs_at(page(level), "適用"@, i) ==> level >= 2 && occurs_at(
                page(level),
                "post('/api/apply',{volt:parseFloat(document.getElementById('v').value),curr:parseFloat(document.getElementById('a').value)})\">"@,
                i - 126,
            ),
        !(has(page(level), "{on:true})\">出力OFF"@)),
        !(has(page(level), "{on:false})\">出力ON"@)),
{
    let a = page_head(level);
    let c = controls(level);
    let b = PAGE_SCRIPT@;
    let s = page(level);
    lemma_labels_are_in_the_controls(level);
    lemma_labels_of_the_controls(level);
    reveal_strlit("出力OFF");
    reveal_strlit("出力ON");
    reveal_strlit("適用");
    reveal_strlit("{on:false})\">");
    reveal_strlit("{on:true})\">");
    reveal_strlit("{on:true})\">出力OFF");
    reveal_strlit("{on:false})\">出力ON");
    assert forall|k: int| 0 <= k < s.len() && (#[trigger] s[k] == '出' || s[k] == '適') implies a.len() <= k < a.len()
        + c.len() && c[k - a.len()] == s[k] by {
        if k < a.len() {
            assert(s[k] == a[k]);
        } else if k >= a.len() + c.len() {
            assert(s[k] == b[k - a.len() - c.len()]);
        }
    }
    if level == 1 {
        lemma_stands_in_the_whole(a, c, b, "post('/api/outp',{on:false})\">出力OFF</button>"@, 17);
        lemma_stands_in_the_whole(a, c, b, "{on:false})\">"@, 34);
    }
    if level >= 2 {
        lemma_stands_in_the_whole(a, c, b, "post('/api/outp',{on:true})\">出力ON</button>"@, 17);
        lemma_stands_in_the_whole(a, c, b, "post('/api/outp',{on:false})\">出力OFF</button>"@, 76);
        lemma_stands_in_the_whole(a, c, b, "V <input id=\"v\" type=\"number\" step=\"0.01\" />"@, 126);
        lemma_stands_in_the_whole(a, c, b, "A <input id=\"a\" type=\"number\" step=\"0.001\" />"@, 171);
        lemma_stands_in_the_whole(a, c, b, "post('/api/apply',{volt:parseFloat(document.getElementById('v').value),curr:parseFloat(document.getElementById('a').value)})\">適用</button>"@, 233);
        lemma_stands_in_the_whole(a, c, b, "{on:false})\">"@, 93);
        lemma_stands_in_the_whole(a, c, b, "{on:true})\">"@, 34);
        lemma_stands_in_the_whole(a, c, b, "post('/api/apply',{volt:parseFloat(document.getElementById('v').value),curr:parseFloat(document.getElementById('a').value)})\">"@, 233);
        reveal_strlit("post('/api/apply',{volt:parseFloat(document.getElementById('v').value),curr:parseFloat(document.getElementById('a').value)})\">");
    }
    assert forall|i: int| #[trigger] occurs_at(s, "出力OFF"@, i) implies level > 0 && occurs_at(
        s,
        "{on:false})\">"@,
        i - 13,
    ) by {
        let p = s.subrange(i, i + 5);
        assert(p[0] == s[i] && p[3] == s[i + 3]);
        assert(c[i - a.len()] == '出');
        assert(s[i + 3] == c[i - a.len() + 3]);
    }
    assert forall|i: int| #[trigger] occurs_at(s, "出力ON"@, i) implies level >= 2 && occurs_at(
        s,
        "{on:true})\">"@,
        i - 12,
    ) by {
        let p = s.subrange(i, i + 4);
        assert(p[0] == s[i] && p[3] == s[i + 3]);
        assert(c[i - a.len()] == '出');
        assert(s[i + 3] == c[i - a.len() + 3]);
    }
    assert forall|i: int| #[trigger] occurs_at(s, "適用"@, i) implies level >= 2 && occurs_at(
        s,
        "post('/api/apply',{volt:parseFloat(document.getElementById('v').value),curr:parseFloat(document.getElementById('a').value)})\">"@,
        i - 126,
    ) by {
        let p = s.subrange(i, i + 2);
        assert(p[0] == s[i]);
        assert(c[i - a.len()] == '適');
    }
    if has(s, "{on:true})\">出力OFF"@) {
        let i = choose|i: int| occurs_at(s, "{on:true})\">出力OFF"@, i);
        let p = s.subrange(i, i + 17);
        assert(s.subrange(i + 12, i + 17) =~= "出力OFF"@) by {
            assert forall|k: int| 0 <= k < 5 implies s[i + 12 + k] == #[trigger] "出力OFF"@[k] by {
                assert(p[12 + k] == s[i + 12 + k]);
            }
        }
        assert(occurs_at(s, "出力OFF"@, i + 12));
        let q = s.subrange(i + -1, i + 12);
        assert(q[7] == s[i + 6] && p[6] == s[i + 6]);
    }
    if has(s, "{on:false})\">出力ON"@) {
        let i = choose|i: int| occurs_at(s, "{on:false})\">出力ON"@, i);
        let p = s.subrange(i, i + 17);
        assert(s.subrange(i + 13, i + 17) =~= "出力ON"@) by {
            assert forall|k: int| 0 <= k < 4 implies s[i + 13 + k] == #[trigger] "出力ON"@[k] by {
                assert(p[13 + k] == s[i + 13 + k]);
            }
        }
        assert(occurs_at(s, "出力ON"@, i + 13));
        let q = s.subrange(i + 1, i + 13);
        assert(q[6] == s[i + 7] && p[7] == s[i + 7]);
    }
}

proof fn lemma_lines_of_the_script()
    ensures
        occurs_at(PAGE_SCRIPT@, "const tok = new URLSearchParams(location.search).get('token') || '';"@, 16),
        occurs_at(PAGE_SCRIPT@, "const r = await fetch('/api/status'); const s = await r.json();"@, 117),
        occurs_at(PAGE_SCRIPT@, "document.getElementById('v').textContent = s.meas_volt + ' V / ' + s.meas_curr + ' A / ' + s.meas_pow + ' W';"@, 185),
        occurs_at(PAGE_SCRIPT@, "document.getElementById('mode').textContent = s.info + ' / ' + s.outp + ' (設定' + s.set_volt + 'V/' + s.set_curr + 'A)';"@, 299),
        occurs_at(PAGE_SCRIPT@, "catch(e){ document.getElementById('mode').textContent = '無応答'; }"@, 422),
        occurs_at(PAGE_SCRIPT@, "const q = tok ? '?token=' + encodeURIComponent(tok) : '';"@, 524),
        occurs_at(PAGE_SCRIPT@, "const r = await fetch(path + q, { method: 'POST', headers: { 'Content-Type': 'application/json', 'X-Token': tok }, body: JSON.stringify(body) });"@, 584),
        occurs_at(PAGE_SCRIPT@, "document.getElementById('op').textContent = r.status + ' ' + (await r.text());"@, 732),
        occurs_at(PAGE_SCRIPT@, "setInterval(st, 2000); st();"@, 821),
{
    reveal_strlit(r##"</div>
<script>
const tok = new URLSearchParams(location.search).get('token') || '';
async function st(){
  try{
    const r = await fetch('/api/status'); const s = await r.json();
    document.getElementById('v').textContent = s.meas_volt + ' V / ' + s.meas_curr + ' A / ' + s.meas_pow + ' W';
    document.getElementById('mode').textContent = s.info + ' / ' + s.outp + ' (設定' + s.set_volt + 'V/' + s.set_curr + 'A)';
  }catch(e){ document.getElementById('mode').textContent = '無応答'; }
}
async function post(path, body){
  const q = tok ? '?token=' + encodeURIComponent(tok) : '';
  const r = await fetch(path + q, { method: 'POST', headers: { 'Content-Type': 'application/json', 'X-Token': tok }, body: JSON.stringify(body) });
  document.getElementById('op').textContent = r.status + ' ' + (await r.text());
  st();
}
setInterval(st, 2000); st();
</script></body></html>"##);
    reveal_strlit("const tok = new URLSearchParams(location.search).get('token') || '';");
    reveal_strlit("const r = await fetch('/api/status'); const s = await r.json();");
    reveal_strlit("document.getElementById('v').textContent = s.meas_volt + ' V / ' + s.meas_curr + ' A / ' + s.meas_pow + ' W';");
    reveal_strlit("document.getElementById('mode').textContent = s.info + ' / ' + s.outp + ' (設定' + s.set_volt + 'V/' + s.set_curr + 'A)';");
    reveal_strlit("catch(e){ document.getElementById('mode').textContent = '無応答'; }");
    reveal_strlit("const q = tok ? '?token=' + encodeURIComponent(tok) : '';");
    reveal_strlit("const r = await fetch(path + q, { method: 'POST', headers: { 'Content-Type': 'application/json', 'X-Token': tok }, body: JSON.stringify(body) });");
    reveal_strlit("document.getElementById('op').textContent = r.status + ' ' + (await r.text());");
    reveal_strlit("setInterval(st, 2000); st();");
    assert(PAGE_SCRIPT@.subrange(16, 84) =~= "const tok = new URLSearchParams(location.search).get('token') || '';"@);
    assert(PAGE_SCRIPT@.subrange(117, 180) =~= "const r = await fetch('/api/status'); const s = await r.json();"@);
    assert(PAGE_SCRIPT@.subrange(185, 294) =~= "document.getElementById('v').textContent = s.meas_volt + ' V / ' + s.meas_curr + ' A / ' + s.meas_pow + ' W';"@);
    assert(PAGE_SCRIPT@.subrange(299, 418) =~= "document.getElementById('mode').textContent = s.info + ' / ' + s.outp + ' (設定' + s.set_volt + 'V/' + s.set_curr + 'A)';"@);
    assert(PAGE_SCRIPT@.subrange(422, 486) =~= "catch(e){ document.getElementById('mode').textContent = '無応答'; }"@);
    assert(PAGE_SCRIPT@.subrange(524, 581) =~= "const q = tok ? '?token=' + encodeURIComponent(tok) : '';"@);
    assert(PAGE_SCRIPT@.subrange(584, 729) =~= "const r = await fetch(path + q, { method: 'POST', headers: { 'Content-Type': 'application/json', 'X-Token': tok }, body: JSON.stringify(body) });"@);
    assert(PAGE_SCRIPT@.subrange(732, 810) =~= "document.getElementById('op').textContent = r.status + ' ' + (await r.text());"@);
    assert(PAGE_SCRIPT@.subrange(821, 849) =~= "setInterval(st, 2000); st();"@);
}

/// At every level the page asks for the status every two seconds, and shows each
/// value of it where it belongs: the readings with their units, and the settings
/// behind the mode and the state of the output. What a button posts goes with the
/// token that the page itself was asked for with, in the query and in the field.
pub proof fn law_page_shows_the_status_and_passes_the_token_on(level: u8)
    ensures
        has(page(level), "<div id=\"v\">-- V / -- A / -- W</div><div id=\"mode\">--</div><div id=\"op\"></div>"@),
        has(page(level), "const tok = new URLSearchParams(location.search).get('token') || '';"@),
        has(page(level), "const r = await fetch('/api/status'); const s = await r.json();"@),
        has(page(level), "document.getElementById('v').textContent = s.meas_volt + ' V / ' + s.meas_curr + ' A / ' + s.meas_pow + ' W';"@),
        has(page(level), "document.getElementById('mode').textContent = s.info + ' / ' + s.outp + ' (設定' + s.set_volt + 'V/' + s.set_curr + 'A)';"@),
        has(page(level), "catch(e){ document.getElementById('mode').textContent = '無応答'; }"@),
        has(page(level), "const q = tok ? '?token=' + encodeURIComponent(tok) : '';"@),
        has(page(level), "const r = await fetch(path + q, { method: 'POST', headers: { 'Content-Type': 'application/json', 'X-Token': tok }, body: JSON.stringify(body) });"@),
        has(page(level), "document.getElementById('op').textContent = r.status + ' ' + (await r.text());"@),
        has(page(level), "setInterval(st, 2000); st();"@),
{
    let a = page_head(level) + controls(level);
    let b = PAGE_SCRIPT@;
    assert(a + b + Seq::<char>::empty() =~= page(level));
    lemma_lines_of_the_script();
    lemma_stands_in_the_whole(a, b, Seq::empty(), "const tok = new URLSearchParams(location.search).get('token') || '';"@, 16);
    lemma_stands_in_the_whole(a, b, Seq::empty(), "const r = await fetch('/api/status'); const s = await r.json();"@, 117);
    lemma_stands_in_the_whole(a, b, Seq::empty(), "document.getElementById('v').textContent = s.meas_volt + ' V / ' + s.meas_curr + ' A / ' + s.meas_pow + ' W';"@, 185);
    lemma_stands_in_the_whole(a, b, Seq::empty(), "document.getElementById('mode').textContent = s.info + ' / ' + s.outp + ' (設定' + s.set_volt + 'V/' + s.set_curr + 'A)';"@, 299);
    lemma_stands_in_the_whole(a, b, Seq::empty(), "catch(e){ document.getElementById('mode').textContent = '無応答'; }"@, 422);
    lemma_stands_in_the_whole(a, b, Seq::empty(), "const q = tok ? '?token=' + encodeURIComponent(tok) : '';"@, 524);
    lemma_stands_in_the_whole(a, b, Seq::empty(), "const r = await fetch(path + q, { method: 'POST', headers: { 'Content-Type': 'application/json', 'X-Token': tok }, body: JSON.stringify(body) });"@, 584);
    lemma_stands_in_the_whole(a, b, Seq::empty(), "document.getElementById('op').textContent = r.status + ' ' + (await r.text());"@, 732);
    lemma_stands_in_the_whole(a, b, Seq::empty(), "setInterval(st, 2000); st();"@, 821);
    let d = decimal(level as nat);
    let before = PAGE_TITLE@ + d + PAGE_HEADING@ + d;
    let after = controls(level) + PAGE_SCRIPT@;
    assert(before + PAGE_READINGS@ + after =~= page(level));
    assert(occurs_at(PAGE_READINGS@, "<div id=\"v\">-- V / -- A / -- W</div><div id=\"mode\">--</div><div id=\"op\"></div>"@, 7)) by {
        reveal_strlit(r##")</h2>
<div id="v">-- V / -- A / -- W</div><div id="mode">--</div><div id="op"></div>
<div>"##);
        reveal_strlit("<div id=\"v\">-- V / -- A / -- W</div><div id=\"mode\">--</div><div id=\"op\"></div>");
        assert(PAGE_READINGS@.subrange(7, 85) =~= "<div id=\"v\">-- V / -- A / -- W</div><div id=\"mode\">--</div><div id=\"op\"></div>"@);
    }
    lemma_stands_in_the_whole(before, PAGE_READINGS@, after, "<div id=\"v\">-- V / -- A / -- W</div><div id=\"mode\">--</div><div id=\"op\"></div>"@, 7);
}

/// The page is a document that names its level in its title and in its heading.
pub proof fn law_page_names_its_level(level: u8)
    ensures
        "<!doctype html><html lang=\"ja\">"@.is_prefix_of(page(level)),
        exists|x: Seq<char>, y: Seq<char>|
            page(level) == #[trigger] (x + ("<title>SPE6103 Lv"@ + decimal(level as nat) + "</title>"@) + y),
        exists|x: Seq<char>, y: Seq<char>|
            page(level) == #[trigger] (x + ("<h2>SPE6103 サーバー (Lv"@ + decimal(level as nat) + ")</h2>"@) + y),
{
    let d = decimal(level as nat);
    let rest = controls(level) + PAGE_SCRIPT@;
    reveal_strlit(r##"<!doctype html><html lang="ja"><head><meta charset="utf-8" />
<meta name="viewport" content="width=device-width,initial-scale=1" />
<title>SPE6103 Lv"##);
    reveal_strlit(r##"</title>
<style>body{font-family:system-ui,sans-serif;margin:16px}#v{font-size:40px;font-weight:bold}#mode{font-size:24px}button{padding:10px 16px;margin:4px}input{width:90px;padding:8px}</style>
</head><body><h2>SPE6103 サーバー (Lv"##);
    reveal_strlit(r##")</h2>
<div id="v">-- V / -- A / -- W</div><div id="mode">--</div><div id="op"></div>
<div>"##);
    reveal_strlit("<!doctype html><html lang=\"ja\">");
    reveal_strlit("<title>SPE6103 Lv");
    reveal_strlit("</title>");
    reveal_strlit("<h2>SPE6103 サーバー (Lv");
    reveal_strlit(")</h2>");
    let x1 = PAGE_TITLE@.take(132);
    assert(PAGE_TITLE@ =~= x1 + "<title>SPE6103 Lv"@);
    let y1 = PAGE_HEADING@.skip(8);
    assert(PAGE_HEADING@ =~= "</title>"@ + y1);
    let x2 = PAGE_HEADING@.take(209);
    assert(PAGE_HEADING@ =~= x2 + "<h2>SPE6103 サーバー (Lv"@);
    let y2 = PAGE_READINGS@.skip(6);
    assert(PAGE_READINGS@ =~= ")</h2>"@ + y2);
    assert(page(level) =~= x1 + ("<title>SPE6103 Lv"@ + d + "</title>"@) + (y1 + d + PAGE_READINGS@ + rest));
    assert(page(level) =~= (PAGE_TITLE@ + d + x2) + ("<h2>SPE6103 サーバー (Lv"@ + d + ")</h2>"@) + (y2 + rest));
}

/// The controls of level 0 do nothing, those of level 1 do nothing but switch off,
/// and those of the levels above switch off, switch on and set.
pub proof fn law_controls_do_no_more_than_their_level(level: u8, i: int)
    ensures
        level == 0 ==> has(page(level), "<p>監視のみ</p>"@) && !controls(level).contains('('),
        occurs_at(controls(level), "post("@, i) ==> level > 0 && (occurs_at(controls(level), "post('/api/outp',{on:false})"@, i) || (level >= 2
            && (occurs_at(controls(level), "post('/api/outp',{on:true})"@, i) || occurs_at(
            controls(level),
            "post('/api/apply',{volt:parseFloat(document.getElementById('v').value),curr:parseFloat(document.getElementById('a').value)})"@,
            i,
        )))),
{
    let c = controls(level);
    reveal_strlit("<p>監視のみ</p>");
    reveal_strlit("<button onclick=\"post('/api/outp',{on:false})\">出力OFF</button>");
    reveal_strlit("<button onclick=\"post('/api/outp',{on:true})\">出力ON</button><button onclick=\"post('/api/outp',{on:false})\">出力OFF</button><br />V <input id=\"v\" type=\"number\" step=\"0.01\" /> A <input id=\"a\" type=\"number\" step=\"0.001\" /><button onclick=\"post('/api/apply',{volt:parseFloat(document.getElementById('v').value),curr:parseFloat(document.getElementById('a').value)})\">適用</button>");
    reveal_strlit("post('/api/outp',{on:false})");
    reveal_strlit("post('/api/outp',{on:true})");
    reveal_strlit("post('/api/apply',{volt:parseFloat(document.getElementById('v').value),curr:parseFloat(document.getElementById('a').value)})");
    reveal_strlit("post(");
    if level == 0 {
        assert(c.subrange(0, 11) =~= c);
        assert(page(level) =~= page_head(level) + c + PAGE_SCRIPT@);
        lemma_stands_in_the_whole(page_head(level), c, PAGE_SCRIPT@, c, 0);
    }
    if occurs_at(c, "post("@, i) {
        let p = c.subrange(i, i + 5);
        assert(p[0] == c[i] && p[1] == c[i + 1] && p[2] == c[i + 2]);
        if level == 1 {
            assert(i == 17);
            assert(c.subrange(17, 45) =~= "post('/api/outp',{on:false})"@);
        }
        if level >= 2 {
            assert(i == 17 || i == 76 || i == 233);
            assert(c.subrange(17, 44) =~= "post('/api/outp',{on:true})"@);
            assert(c.subrange(76, 104) =~= "post('/api/outp',{on:false})"@);
            assert(c.subrange(233, 357) =~= "post('/api/apply',{volt:parseFloat(document.getElementById('v').value),curr:parseFloat(document.getElementById('a').value)})"@);
        }
    }
}

} // verus!
