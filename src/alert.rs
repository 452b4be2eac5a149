use vstd::prelude::*;

use crate::detect::{ColoChange, ColoChangeView};
use crate::observation::opt_view;

verus! {

/// The host that `url::Url::parse` finds in `s`, or none where `s` does
/// not parse or has no host.
pub uninterp spec fn url_host(s: Seq<char>) -> Option<Seq<char>>;

/// Relies on `url::Url::parse` and `url::Url::host_str`: the host part of
/// an absolute URL.
#[verifier::external_body]
fn host_of(s: &str) -> (r: Option<String>)
    ensures
        opt_view(r) == url_host(s@),
{
    let parsed = url::Url::parse(s).ok()?;
    Some(parsed.host_str()?.to_string())
}

/// The host `host` where there is one, else the whole address `url`.
pub open spec fn host_or_address(host: Option<Seq<char>>, url: Seq<char>) -> Seq<char> {
    match host {
        Some(h) => h,
        None => url,
    }
}

/// The name under which an alert shows a target: its host, or the whole
/// address where it has none.
pub open spec fn display_host_of(url: Seq<char>) -> Seq<char> {
    host_or_address(url_host(url), url)
}

/// The host found in `url`, or `url` itself where none was (see
/// `host_or_address`).
pub fn host_or_url(host: Option<String>, url: &str) -> (r: String)
    ensures
        r@ == host_or_address(opt_view(host), url@),
{
    match host {
        Some(h) => h,
        None => url.to_owned(),
    }
}

/// The name under which an alert shows `url` (see `display_host_of`).
pub fn display_host(url: &str) -> (r: String)
    ensures
        r@ == display_host_of(url@),
{
    host_or_url(host_of(url), url)
}

/// The character of a decimal digit.
pub open spec fn digit_char(d: nat) -> char {
    if d == 0 {
        '0'
    } else if d == 1 {
        '1'
    } else if d == 2 {
        '2'
    } else if d == 3 {
        '3'
    } else if d == 4 {
        '4'
    } else if d == 5 {
        '5'
    } else if d == 6 {
        '6'
    } else if d == 7 {
        '7'
    } else if d == 8 {
        '8'
    } else {
        '9'
    }
}

/// `n` in decimal, without leading zeros.
pub open spec fn decimal(n: nat) -> Seq<char>
    decreases n,
{
    if n < 10 {
        seq![digit_char(n)]
    } else {
        decimal(n / 10).push(digit_char(n % 10))
    }
}

fn digit_text(d: u64) -> (r: &'static str)
    requires
        d < 10,
    ensures
        r@ == seq![digit_char(d as nat)],
{
    proof {
        reveal_strlit("0");
        reveal_strlit("1");
        reveal_strlit("2");
        reveal_strlit("3");
        reveal_strlit("4");
        reveal_strlit("5");
        reveal_strlit("6");
        reveal_strlit("7");
        reveal_strlit("8");
        reveal_strlit("9");
    }
    let r = if d == 0 {
        "0"
    } else if d == 1 {
        "1"
    } else if d == 2 {
        "2"
    } else if d == 3 {
        "3"
    } else if d == 4 {
        "4"
    } else if d == 5 {
        "5"
    } else if d == 6 {
        "6"
    } else if d == 7 {
        "7"
    } else if d == 8 {
        "8"
    } else {
        "9"
    };
    assert(r@ =~= seq![digit_char(d as nat)]);
    r
}

/// `n` in decimal (see `decimal`).
pub fn decimal_text(n: u64) -> (r: String)
    ensures
        r@ == decimal(n as nat),
    decreases n,
{
    if n < 10 {
        digit_text(n).to_owned()
    } else {
        let mut s = decimal_text(n / 10);
        s.append(digit_text(n % 10));
        assert(s@ =~= decimal((n / 10) as nat).push(digit_char((n % 10) as nat)));
        s
    }
}

/// The colour, value and unit of the badge that shows a round-trip time:
/// green below 300 ms, yellow below 500, orange below 1000, red from
/// there; grey and "N/A" without a time.
pub open spec fn badge(rtt: Option<u64>) -> (Seq<char>, Seq<char>, Seq<char>) {
    match rtt {
        Some(ms) => (
            if ms < 300 {
                "3a3"@
            } else if ms < 500 {
                "991"@
            } else if ms < 1000 {
                "c52"@
            } else {
                "b22"@
            },
            decimal(ms as nat),
            "ms"@,
        ),
        None => ("999"@, "N/A"@, ""@),
    }
}

/// The badge that shows a round-trip time (see `badge`).
pub fn rtt_badge(rtt: Option<u64>) -> (r: (&'static str, String, &'static str))
    ensures
        (r.0@, r.1@, r.2@) == badge(rtt),
{
    match rtt {
        Some(ms) => {
            let colour = if ms < 300 {
                "3a3"
            } else if ms < 500 {
                "991"
            } else if ms < 1000 {
                "c52"
            } else {
                "b22"
            };
            (colour, decimal_text(ms), "ms")
        },
        None => ("999", "N/A".to_owned(), ""),
    }
}

/// The markup line that announces `c`, naming the target as `host`.
pub open spec fn alert_text(c: ColoChangeView, host: Seq<char>) -> Seq<char> {
    let (colour, value, unit) = badge(c.rtt_millis);
    "<small>`"@ + c.previous + "`</small>\u{2192}`"@ + c.current
        + "` $[border.color=0000,radius=10 $[bg.color="@ + colour + " $[fg.color=fff  "@ + value
        + "<small>"@ + unit + "</small> ]]] ?["@ + host + "]("@ + c.url + ")"@
}

/// The markup line that announces `c`, naming the target as `host` (see
/// `alert_text`).
pub fn alert_line(c: &ColoChange, host: &str) -> (r: String)
    ensures
        r@ == alert_text(c@, host@),
{
    let (colour, value, unit) = rtt_badge(c.rtt_millis);
    let mut s = String::new();
    s.append("<small>`");
    s.append(c.previous.as_str());
    s.append("`</small>\u{2192}`");
    s.append(c.current.as_str());
    s.append("` $[border.color=0000,radius=10 $[bg.color=");
    s.append(colour);
    s.append(" $[fg.color=fff  ");
    s.append(value.as_str());
    s.append("<small>");
    s.append(unit);
    s.append("</small> ]]] ?[");
    s.append(host);
    s.append("](");
    s.append(c.url.as_str());
    s.append(")");
    assert(s@ =~= alert_text(c@, host@));
    s
}

/// The markup line that announces `c`, naming the target by its host
/// (see `alert_text` and `display_host_of`).
pub fn alert_message(c: &ColoChange) -> (r: String)
    ensures
        r@ == alert_text(c@, display_host_of(c.url@)),
{
    let host = display_host(c.url.as_str());
    alert_line(c, host.as_str())
}

/// The lines of `cs`, each followed by a line feed but the last.
pub open spec fn joined_lines(cs: Seq<Seq<char>>) -> Seq<char>
    decreases cs.len(),
{
    if cs.len() == 0 {
        Seq::empty()
    } else if cs.len() == 1 {
        cs[0]
    } else {
        joined_lines(cs.drop_last()) + "\n"@ + cs.last()
    }
}

/// The one message that announces all of `changes`, a line each, in order.
pub fn batch_message(changes: &Vec<ColoChange>) -> (r: String)
    ensures
        r@ == joined_lines(
            changes@.map_values(|c: ColoChange| alert_text(c@, display_host_of(c.url@))),
        ),
{
    let ghost lines = changes@.map_values(|c: ColoChange| alert_text(c@, display_host_of(c.url@)));
    let mut s = String::new();
    let mut i: usize = 0;
    while i < changes.len()
        invariant
            0 <= i <= changes.len(),
            lines == changes@.map_values(|c: ColoChange| alert_text(c@, display_host_of(c.url@))),
            s@ == joined_lines(lines.subrange(0, i as int)),
        decreases changes.len() - i,
    {
        let line = alert_message(&changes[i]);
        assert(lines.subrange(0, i + 1).drop_last() =~= lines.subrange(0, i as int));
        if i > 0 {
            s.append("\n");
        }
        s.append(line.as_str());
        proof {
            if i == 0 {
                assert(s@ =~= lines.subrange(0, 1)[0]);
            }
        }
        i = i + 1;
    }
    assert(lines.subrange(0, changes.len() as int) =~= lines);
    s
}

} // verus!
