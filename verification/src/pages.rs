//! The pages that the gateway serves itself. They need nothing from elsewhere.
use vstd::prelude::*;

use crate::text;

verus! {

/// The page that a scanned invitation opens. It reads the invitation in the
/// browser and sends nothing of it.
pub const PAIR_PAGE: &'static str = r#"<!doctype html><html lang="zh-CN"><head><meta charset="utf-8">
<meta name="viewport" content="width=device-width,initial-scale=1"><title>DSH 配对</title>
<style>
 body{font-family:system-ui,-apple-system,sans-serif;background:#111;color:#eee;max-width:480px;margin:0 auto;padding:24px 16px;text-align:center}
 .code{font-size:38px;font-weight:700;letter-spacing:4px;margin:8px 0;font-family:ui-monospace,monospace}
 .host{font-size:26px;letter-spacing:3px;color:#7fd38a;font-family:ui-monospace,monospace}
 .card{background:#1d1d1f;border-radius:14px;padding:18px;margin:14px 0}
 button{width:100%;padding:14px;font-size:16px;border:none;border-radius:12px;background:#2f6fed;color:#fff}
 .hint{color:#999;font-size:13px;line-height:1.7}
</style></head><body>
<div id="app" class="card">正在读取邀请信息…</div>
<div class="hint">此页由网关静态提供,邀请信息只在本机浏览器解析,不上传服务器。</div>
<script>
const q=new URLSearchParams(location.hash.startsWith('#')?location.hash.slice(1):location.hash);
const norm=s=>(s||'').toUpperCase().replace(/[^A-Z0-9]/g,'');
const c=norm(q.get('c')),h=norm(q.get('h'));
const l=(q.get('l')||'').replace(/[^A-Za-z0-9 _.\-]/g,'').slice(0,32);
const app=document.getElementById('app');
if(c.length!==10){app.innerHTML='邀请链接无效或已损坏。<br>请回 Mac 终端重新运行 pair.sh 后再扫。';}
else{
 const fmt=c.slice(0,5)+'-'+c.slice(5);
 const hh=h.length>=6?h.slice(0,3)+'-'+h.slice(3,6):'';
 app.innerHTML='<div class="hint">配对码</div><div class="code">'+fmt+'</div>'+
  (hh?'<div class="hint">锚定主机码</div><div class="host">'+hh+'</div>':'')+
  (l?'<div class="hint">'+l+'</div>':'')+
  '</div><button id="cp">复制配对信息,回到 singleman 粘贴</button>'+
  '<div class="hint" style="margin-top:14px">打开 singleman App → 配对页 → 点地址栏右侧粘贴按钮</div>';
 document.getElementById('cp').onclick=()=>navigator.clipboard.writeText(location.href)
  .then(()=>{document.getElementById('cp').textContent='✅ 已复制,请回到 singleman 粘贴';});
}
</script></body></html>"#;

/// The login page of the web face, before and behind what went wrong.
pub const LOGIN_HEAD: &'static str = r#"<!doctype html><html lang="zh"><head><meta charset="utf-8">
<meta name="viewport" content="width=device-width,initial-scale=1">
<meta name="referrer" content="no-referrer">
<title>DSH 登录</title>
<style>
body{margin:0;min-height:100vh;display:flex;align-items:center;justify-content:center;
background:#16181d;color:#e6e6e6;font:14px/1.5 system-ui,-apple-system,sans-serif}
.card{width:320px;padding:28px;background:#1e2128;border:1px solid #2c3039;border-radius:12px}
h1{margin:0 0 18px;font-size:16px;font-weight:600}
input{width:100%;box-sizing:border-box;padding:10px 12px;margin-bottom:12px;
background:#16181d;border:1px solid #2c3039;border-radius:8px;color:#e6e6e6;font-size:14px}
input:focus{outline:none;border-color:#7ab0ff}
button{width:100%;padding:10px;background:#7ab0ff;border:none;border-radius:8px;
color:#10131a;font-size:14px;font-weight:600;cursor:pointer}
.err{color:#ff7a7a;margin:-6px 0 12px;font-size:13px}
.foot{margin-top:16px;color:#7c8290;font-size:12px;text-align:center}
</style></head><body><div class="card">
<h1>DSH Web 访问</h1>
"#;

pub const LOGIN_TAIL: &'static str = r#"
<form method="post" action="/_gateway/login">
<input type="password" name="password" placeholder="访问密码" autofocus autocomplete="current-password">
<input type="hidden" name="next" value="">
<button type="submit">登录</button>
</form>
<div class="foot">DeepSeek Harness · 网关保护中</div>
</div></body></html>"#;

/// A character as it stands in a page.
pub open spec fn escaped_char(c: char) -> Seq<char> {
    if c == '&' {
        "&amp;"@
    } else if c == '<' {
        "&lt;"@
    } else if c == '>' {
        "&gt;"@
    } else if c == '"' {
        "&quot;"@
    } else {
        seq![c]
    }
}

/// A text as it stands in a page.
pub open spec fn escaped(s: Seq<char>) -> Seq<char>
    decreases s.len(),
{
    if s.len() == 0 {
        Seq::empty()
    } else {
        escaped(s.drop_last()) + escaped_char(s.last())
    }
}

pub fn esc(s: &str) -> (out: String)
    ensures
        out@ == escaped(s@),
{
    let chars = text::to_chars(s);
    let mut out = String::new();
    for i in 0..chars.len()
        invariant
            chars@ == s@,
            out@ == escaped(s@.take(i as int)),
    {
        assert(s@.take(i + 1).drop_last() == s@.take(i as int));
        let c = chars[i];
        if c == '&' {
            out.push_str("&amp;");
        } else if c == '<' {
            out.push_str("&lt;");
        } else if c == '>' {
            out.push_str("&gt;");
        } else if c == '"' {
            out.push_str("&quot;");
        } else {
            out.push(c);
            assert(escaped(s@.take(i as int)) + seq![c] =~= escaped(s@.take(i as int)).push(c));
        }
    }
    assert(s@.take(chars.len() as int) == s@);
    out
}

/// A text in a page opens no tag and ends no attribute.
pub proof fn law_escaped_text_is_inert(s: Seq<char>)
    ensures
        forall|i: int|
            0 <= i < escaped(s).len() ==> (#[trigger] escaped(s)[i]) != '<' && escaped(s)[i] != '>'
                && escaped(s)[i] != '"',
    decreases s.len(),
{
    if s.len() > 0 {
        law_escaped_text_is_inert(s.drop_last());
        reveal_strlit("&amp;");
        reveal_strlit("&lt;");
        reveal_strlit("&gt;");
        reveal_strlit("&quot;");
        let a = escaped(s.drop_last());
        let b = escaped_char(s.last());
        assert forall|i: int| 0 <= i < escaped(s).len() implies (#[trigger] escaped(s)[i]) != '<'
            && escaped(s)[i] != '>' && escaped(s)[i] != '"' by {
            if i < a.len() {
                assert(escaped(s)[i] == a[i]);
            } else {
                assert(escaped(s)[i] == b[i - a.len()]);
            }
        }
    }
}

/// The login page, with what went wrong or without.
pub open spec fn login_page_text(err: Option<Seq<char>>) -> Seq<char> {
    match err {
        Some(m) => LOGIN_HEAD@ + ("<div class=\"err\">"@ + escaped(m) + "</div>"@) + LOGIN_TAIL@,
        None => LOGIN_HEAD@ + LOGIN_TAIL@,
    }
}

pub open spec fn opt_msg(err: Option<&str>) -> Option<Seq<char>> {
    match err {
        Some(m) => Some(m@),
        None => None,
    }
}

pub fn login_html(err: Option<&str>) -> (out: String)
    ensures
        out@ == login_page_text(opt_msg(err)),
{
    let mut out = LOGIN_HEAD.to_owned();
    if let Some(m) = err {
        let mut div = "<div class=\"err\">".to_owned();
        div.push_str(esc(m).as_str());
        div.push_str("</div>");
        out.push_str(div.as_str());
    }
    out.push_str(LOGIN_TAIL);
    out
}

/// A page and how long it may be kept.
#[derive(Debug)]
pub struct Page {
    pub html: String,
    pub cache_control: String,
}

/// The page that a scanned invitation opens. It is not to be stored.
pub fn pair_page_handler() -> (out: Page)
    ensures
        out.html@ == PAIR_PAGE@,
        out.cache_control@ == "no-store"@,
{
    Page { html: PAIR_PAGE.to_owned(), cache_control: "no-store".to_owned() }
}

/// Four characters are written as their entities, every other stands for itself.
pub proof fn law_escaping(s: Seq<char>, c: char)
    ensures
        escaped(Seq::<char>::empty()) == Seq::<char>::empty(),
        escaped(s.push('&')) == escaped(s) + "&amp;"@,
        escaped(s.push('<')) == escaped(s) + "&lt;"@,
        escaped(s.push('>')) == escaped(s) + "&gt;"@,
        escaped(s.push('"')) == escaped(s) + "&quot;"@,
        c != '&' && c != '<' && c != '>' && c != '"' ==> escaped(s.push(c)) == escaped(s).push(c),
{
    assert(s.push('&').drop_last() =~= s);
    assert(s.push('<').drop_last() =~= s);
    assert(s.push('>').drop_last() =~= s);
    assert(s.push('"').drop_last() =~= s);
    assert(s.push(c).drop_last() =~= s);
    assert(escaped(s) + seq![c] =~= escaped(s).push(c));
}

/// The login page shows what went wrong, and is otherwise the same.
pub proof fn law_login_page_shows_what_went_wrong(m: Seq<char>)
    ensures
        login_page_text(None) == LOGIN_HEAD@ + LOGIN_TAIL@,
        login_page_text(Some(m)) == LOGIN_HEAD@ + "<div class=\"err\">"@ + escaped(m) + "</div>"@
            + LOGIN_TAIL@,
{
    assert(login_page_text(Some(m)) =~= LOGIN_HEAD@ + "<div class=\"err\">"@ + escaped(m)
        + "</div>"@ + LOGIN_TAIL@);
}

} // verus!
