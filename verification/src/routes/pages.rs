//! The pages that the role configuration answers with.
use vstd::prelude::*;
use vstd::string::StringExecFns;
use crate::text::{chars_of, replace_str, replaced};

verus! {

/// What a character is written as in the text of a page.
pub open spec fn html_char(c: char) -> Seq<char> {
    if c == '&' {
        "&amp;"@
    } else if c == '<' {
        "&lt;"@
    } else if c == '>' {
        "&gt;"@
    } else {
        seq![c]
    }
}

/// A text with the characters that open markup written out.
pub open spec fn html_escaped(s: Seq<char>) -> Seq<char>
    decreases s.len(),
{
    if s.len() == 0 {
        Seq::empty()
    } else {
        html_escaped(s.drop_last()) + html_char(s.last())
    }
}

/// Writes a text so that it opens no markup.
pub fn html_escape(s: &str) -> (r: String)
    ensures
        r@ == html_escaped(s@),
{
    let chars = chars_of(s);
    let mut out = String::new();
    let mut i: usize = 0;
    while i < chars.len()
        invariant
            chars@ == s@,
            i <= chars.len(),
            out@ =~= html_escaped(s@.take(i as int)),
        decreases chars.len() - i,
    {
        proof {
            let next = s@.take(i + 1);
            assert(next.drop_last() =~= s@.take(i as int));
            assert(next.last() == chars@[i as int]);
        }
        let c = chars[i];
        if c == '&' {
            out.append("&amp;");
        } else if c == '<' {
            out.append("&lt;");
        } else if c == '>' {
            out.append("&gt;");
        } else {
            out.push(c);
        }
        i = i + 1;
    }
    proof {
        assert(s@.take(i as int) =~= s@);
    }
    out
}

/// A text that was written out has no character that opens or closes a tag.
pub proof fn escaped_text_opens_no_tag(s: Seq<char>)
    ensures
        !html_escaped(s).contains('<'),
        !html_escaped(s).contains('>'),
    decreases s.len(),
{
    if s.len() > 0 {
        escaped_text_opens_no_tag(s.drop_last());
        reveal_strlit("&amp;");
        reveal_strlit("&lt;");
        reveal_strlit("&gt;");
        let head = html_escaped(s.drop_last());
        let tail = html_char(s.last());
        let all = html_escaped(s);
        assert forall|i: int| 0 <= i < tail.len() implies tail[i] != '<' && tail[i] != '>' by {}
        assert forall|i: int| 0 <= i < all.len() implies all[i] != '<' && all[i] != '>' by {
            if i < head.len() {
                assert(all[i] == head[i]);
                assert(head.contains(head[i]));
            } else {
                assert(all[i] == tail[i - head.len()]);
            }
        }
    }
}

pub const ERROR_PAGE_1: &'static str = r##"<!DOCTYPE html><html><head><meta charset="utf-8">
<meta name="viewport" content="width=device-width, initial-scale=1">
<title>Cannot load configuration</title>
<link rel="icon" href=""##;

pub const ERROR_PAGE_2: &'static str = r##"/favicon.ico">
<style>body{font-family:system-ui,sans-serif;background:#0f1115;color:#e8eaed;padding:32px 24px;line-height:1.5}
h1{color:#fca5a5;font-size:18px;margin-bottom:10px}p{color:#9aa3b2}</style>
</head><body><h1>Cannot load configuration</h1><p>"##;

pub const ERROR_PAGE_3: &'static str = r##"</p>
<p style="margin-top:14px;color:#7a8497">If you opened this from the RoleLogic dashboard, close and reopen the role's plugin tab.</p>
</body></html>"##;

/// An error in place of the configuration.
pub open spec fn error_page(base_url: Seq<char>, message: Seq<char>) -> Seq<char> {
    ERROR_PAGE_1@ + base_url + ERROR_PAGE_2@ + html_escaped(message) + ERROR_PAGE_3@
}

pub fn render_inline_error(base_url: &str, message: &str) -> (r: String)
    ensures
        r@ == error_page(base_url@, message@),
{
    let mut out = ERROR_PAGE_1.to_owned();
    out.append(base_url);
    out.append(ERROR_PAGE_2);
    out.append(html_escape(message).as_str());
    out.append(ERROR_PAGE_3);
    out
}

pub const NO_TOKEN_PAGE_1: &'static str = r##"<!DOCTYPE html><html><head><meta charset="utf-8">
<meta name="viewport" content="width=device-width, initial-scale=1">
<title>Configuration unavailable</title>
<link rel="icon" href=""##;

pub const NO_TOKEN_PAGE_2: &'static str = r##"/favicon.ico">
<style>body{font-family:system-ui,sans-serif;background:#0f1115;color:#e8eaed;padding:32px 24px;line-height:1.55;max-width:560px}
h1{color:#fbbf24;font-size:18px;margin:0 0 10px}p{color:#9aa3b2;margin:8px 0}
code{background:#0b0d12;padding:2px 6px;border-radius:4px;font-size:12px}</style>
</head><body>
<h1>RoleLogic didn't pass an authentication token</h1>
<p>This plugin page must be opened from inside the RoleLogic dashboard, which
attaches a one-time token. None arrived with this request.</p>
<p><strong>If you're the server admin:</strong> close this tab and reopen the
role's plugin tab from RoleLogic. If it keeps happening, the plugin is
mis-registered — its <code>BASE_URL</code> must exactly match the URL
configured for this plugin in RoleLogic: HTTPS, no trailing slash, and
including the <code>/stripe-subscriber-role</code> path prefix.</p>
<p style="color:#7a8497;font-size:12px;margin-top:16px">Configured BASE_URL:
<code>"##;

pub const NO_TOKEN_PAGE_3: &'static str = r##"</code></p>
</body></html>"##;

/// The page for a frame that came without a token.
pub open spec fn no_token_page(base_url: Seq<char>) -> Seq<char> {
    NO_TOKEN_PAGE_1@ + base_url + NO_TOKEN_PAGE_2@ + base_url + NO_TOKEN_PAGE_3@
}

pub fn render_iframe_no_token(base_url: &str) -> (r: String)
    ensures
        r@ == no_token_page(base_url@),
{
    let mut out = NO_TOKEN_PAGE_1.to_owned();
    out.append(base_url);
    out.append(NO_TOKEN_PAGE_2);
    out.append(base_url);
    out.append(NO_TOKEN_PAGE_3);
    out
}

pub const SIGNIN_PAGE_1: &'static str = r##"<!DOCTYPE html><html><head><meta charset="utf-8">
<meta name="viewport" content="width=device-width, initial-scale=1">
<title>Sign in — Stripe Subscriber Role</title>
<link rel="icon" href=""##;

pub const SIGNIN_PAGE_2: &'static str = r##"/favicon.ico">
<style>body{font-family:system-ui,sans-serif;background:#0f1115;color:#e8eaed;padding:48px 24px;max-width:520px;margin:0 auto;line-height:1.55}
h1{font-size:22px;margin:0 0 12px}p{color:#9aa3b2}
a.btn{display:inline-block;margin-top:18px;background:#635bff;color:#fff;padding:12px 22px;border-radius:8px;text-decoration:none;font-weight:600}
.actions{display:flex;gap:10px;align-items:center;flex-wrap:wrap;margin-top:18px}
.actions a.btn{margin-top:0}
form.logout-form{margin:0}
button.logout{background:none;color:#8a93a4;border:1px solid #2a2f3a;
  padding:10px 16px;border-radius:8px;font-size:13px;font-weight:600;
  cursor:pointer;font-family:inherit}
button.logout:hover{color:#fca5a5;border-color:#5c2630}</style>
</head><body>
<h1>Sign in to continue</h1>
<p>You need <strong>Manage Server</strong> on this guild to edit its
Stripe-Subscriber-Role configuration.</p>
<p style="color:#7a8497;font-size:12px">"##;

pub const SIGNIN_PAGE_3: &'static str = r##"</p>
<div class="actions">
  <a class="btn" id="login">Sign in with Discord</a>
  <form class="logout-form" method="POST" action="/auth/logout">
    <button type="submit" class="logout">Sign out &amp; try another account</button>
  </form>
</div>
<script>
const ORIGIN=new URL(""##;

pub const SIGNIN_PAGE_4: &'static str = r##"").origin;
const RET=encodeURIComponent(location.pathname);
document.getElementById('login').href=ORIGIN+'/auth/login?return_to='+RET;
document.querySelectorAll('form.logout-form').forEach(f=>{
  f.action=ORIGIN+'/auth/logout?return_to='+RET;
});
</script>
</body></html>"##;

/// The page that asks the visitor to sign in.
pub open spec fn signin_page(base_url: Seq<char>, reason: Seq<char>) -> Seq<char> {
    SIGNIN_PAGE_1@ + base_url + SIGNIN_PAGE_2@ + html_escaped(reason) + SIGNIN_PAGE_3@ + base_url + SIGNIN_PAGE_4@
}

pub fn render_signin_page(base_url: &str, reason: &str) -> (r: String)
    ensures
        r@ == signin_page(base_url@, reason@),
{
    let mut out = SIGNIN_PAGE_1.to_owned();
    out.append(base_url);
    out.append(SIGNIN_PAGE_2);
    out.append(html_escape(reason).as_str());
    out.append(SIGNIN_PAGE_3);
    out.append(base_url);
    out.append(SIGNIN_PAGE_4);
    out
}

/// The configuration page: a template with the address of the service, the
/// guild, the role, the session of the frame and whether it may only be read.
pub open spec fn config_page(
    template: Seq<char>,
    base_url: Seq<char>,
    guild_id: Seq<char>,
    role_id: Seq<char>,
    iframe_token: Seq<char>,
    read_only: bool,
) -> Seq<char> {
    let a = replaced(template, "__BASE_URL__"@, base_url);
    let b = replaced(a, "__GUILD_ID__"@, guild_id);
    let c = replaced(b, "__ROLE_ID__"@, role_id);
    let d = replaced(c, "__IFRAME_TOKEN__"@, iframe_token);
    replaced(
        d,
        "__READ_ONLY__"@,
        if read_only {
            "1"@
        } else {
            "0"@
        },
    )
}

/// Fills in the configuration page.
pub fn role_config_body(
    template: &str,
    base_url: &str,
    guild_id: &str,
    role_id: &str,
    iframe_token: &str,
    read_only: bool,
) -> (r: String)
    ensures
        r@ == config_page(template@, base_url@, guild_id@, role_id@, iframe_token@, read_only),
{
    proof {
        reveal_strlit("__BASE_URL__");
        reveal_strlit("__GUILD_ID__");
        reveal_strlit("__ROLE_ID__");
        reveal_strlit("__IFRAME_TOKEN__");
        reveal_strlit("__READ_ONLY__");
    }
    let a = replace_str(template, "__BASE_URL__", base_url);
    let b = replace_str(a.as_str(), "__GUILD_ID__", guild_id);
    let c = replace_str(b.as_str(), "__ROLE_ID__", role_id);
    let d = replace_str(c.as_str(), "__IFRAME_TOKEN__", iframe_token);
    replace_str(
        d.as_str(),
        "__READ_ONLY__",
        if read_only {
            "1"
        } else {
            "0"
        },
    )
}

} // verus!
