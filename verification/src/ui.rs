//! What the window shows and hears: the script that updates the built-in
//! initialization screen, the reading of messages posted by the page, and
//! the colors of the native chrome.

use vstd::prelude::*;
use vstd::string::*;

use crate::events::Command;
use crate::node::views;
use crate::text::{
    chars_of, char_from_hex_digit, contains, hex_digit, lemma_contains_iff_occurs, occurs_at, push_str, str_contains,
};

verus! {

broadcast use vstd::string::group_string_axioms;

/// How one character is written inside a JavaScript string literal.
pub open spec fn escape_char(c: char) -> Seq<char> {
    if c == '"' {
        seq!['\\', '"']
    } else if c == '\\' {
        seq!['\\', '\\']
    } else if c == '\n' {
        seq!['\\', 'n']
    } else if c == '\r' {
        seq!['\\', 'r']
    } else if c == '\t' {
        seq!['\\', 't']
    } else if (c as u32) < 0x20 {
        seq!['\\', 'u', '0', '0', hex_digit((c as u32 / 16) as nat), hex_digit((c as u32 % 16) as nat)]
    } else {
        seq![c]
    }
}

/// Every character of `s`, escaped.
pub open spec fn escape_all(s: Seq<char>) -> Seq<char>
    decreases s.len(),
{
    if s.len() == 0 {
        Seq::empty()
    } else {
        escape_all(s.drop_last()) + escape_char(s.last())
    }
}

/// `s` as a double-quoted JavaScript string literal.
pub open spec fn js_literal(s: Seq<char>) -> Seq<char> {
    seq!['"'] + escape_all(s) + seq!['"']
}

/// Appends the escaped form of `c`.
fn push_escaped(out: &mut String, c: char)
    ensures
        final(out)@ == old(out)@ + escape_char(c),
{
    let ghost before = out@;
    let u = c as u32;
    if c == '"' {
        out.push('\\');
        out.push('"');
    } else if c == '\\' {
        out.push('\\');
        out.push('\\');
    } else if c == '\n' {
        out.push('\\');
        out.push('n');
    } else if c == '\r' {
        out.push('\\');
        out.push('r');
    } else if c == '\t' {
        out.push('\\');
        out.push('t');
    } else if u < 0x20 {
        out.push('\\');
        out.push('u');
        out.push('0');
        out.push('0');
        out.push(char_from_hex_digit(u / 16));
        out.push(char_from_hex_digit(u % 16));
    } else {
        out.push(c);
    }
    proof {
        assert(out@ =~= before + escape_char(c));
    }
}

/// Quote `s` as a JavaScript string literal.
pub fn js_str(s: &str) -> (r: String)
    ensures
        r@ == js_literal(s@),
{
    let v = chars_of(s);
    let mut out = String::new();
    out.push('"');
    let mut i: usize = 0;
    while i < v.len()
        invariant
            i <= v@.len(),
            out@ == seq!['"'] + escape_all(v@.take(i as int)),
        decreases v@.len() - i,
    {
        push_escaped(&mut out, v[i]);
        proof {
            let t = v@.take(i + 1);
            assert(t.drop_last() =~= v@.take(i as int));
            assert(t.last() == v@[i as int]);
        }
        i = i + 1;
    }
    out.push('"');
    proof {
        assert(v@.take(v@.len() as int) =~= v@);
    }
    out
}

/// The quoted actions separated by commas.
pub open spec fn js_list(items: Seq<Seq<char>>) -> Seq<char>
    decreases items.len(),
{
    if items.len() == 0 {
        Seq::empty()
    } else if items.len() == 1 {
        js_literal(items[0])
    } else {
        js_list(items.drop_last()) + seq![','] + js_literal(items.last())
    }
}

/// The script that hands a status to the initialization screen:
/// `window.__dshSetStatus({title:…,detail:…,actions:[…]})`.
pub open spec fn spec_status_script(
    title: Seq<char>,
    detail: Seq<char>,
    actions: Seq<Seq<char>>,
) -> Seq<char> {
    "window.__dshSetStatus({title:"@ + js_literal(title) + ",detail:"@ + js_literal(detail)
        + ",actions:["@ + js_list(actions) + "]})"@
}

/// The script that shows a status on the initialization screen.
pub fn status_script(title: &str, detail: &str, actions: &Vec<String>) -> (r: String)
    ensures
        r@ == spec_status_script(title@, detail@, views(actions@)),
{
    let mut out = "window.__dshSetStatus({title:".to_owned();
    let t = js_str(title);
    push_str(&mut out, t.as_str());
    push_str(&mut out, ",detail:");
    let d = js_str(detail);
    push_str(&mut out, d.as_str());
    push_str(&mut out, ",actions:[");
    let ghost prefix = out@;
    let mut i: usize = 0;
    while i < actions.len()
        invariant
            i <= actions@.len(),
            out@ == prefix + js_list(views(actions@).take(i as int)),
        decreases actions@.len() - i,
    {
        let ghost before = out@;
        if i > 0 {
            out.push(',');
        }
        let a = js_str(actions[i].as_str());
        push_str(&mut out, a.as_str());
        proof {
            let t = views(actions@).take(i + 1);
            assert(t.drop_last() =~= views(actions@).take(i as int));
            assert(t.last() == actions@[i as int]@);
            if i == 0 {
                assert(js_list(views(actions@).take(0)) =~= Seq::<char>::empty());
                assert(out@ =~= prefix + js_list(t));
            } else {
                assert(out@ =~= prefix + js_list(t));
            }
        }
        i = i + 1;
    }
    push_str(&mut out, "]})");
    proof {
        assert(views(actions@).take(actions@.len() as int) =~= views(actions@));
        assert(out@ =~= spec_status_script(title@, detail@, views(actions@)));
    }
    out
}

/// A message the page posted through the IPC bridge.
#[derive(PartialEq, Eq, Structural, Clone, Copy, Debug)]
pub enum IpcMessage {
    /// The page switched to the dark (`true`) or light theme.
    Theme { dark: bool },
    /// The first frame is on screen; the window may be shown.
    Visible,
    /// The user pressed a button on the initialization screen.
    UserCommand { command: Command },
    /// Anything else.
    Ignored,
}

/// How a posted message is read. Internal pings are recognized first, so
/// that they are never mistaken for commands.
pub open spec fn spec_classify_ipc(body: Seq<char>) -> IpcMessage {
    if contains(body, "__theme:dark"@) {
        IpcMessage::Theme { dark: true }
    } else if contains(body, "__theme:light"@) {
        IpcMessage::Theme { dark: false }
    } else if contains(body, "__visible"@) {
        IpcMessage::Visible
    } else if contains(body, "upgrade"@) {
        IpcMessage::UserCommand { command: Command::Upgrade }
    } else if contains(body, "skip"@) {
        IpcMessage::UserCommand { command: Command::SkipUpdate }
    } else if contains(body, "retry"@) {
        IpcMessage::UserCommand { command: Command::Retry }
    } else {
        IpcMessage::Ignored
    }
}

/// A page message that mentions none of the theme and visibility pings is
/// a button click when it names a button anywhere in it: `upgrade` before
/// `skip` before `retry`, and with none of them it is ignored. So the
/// init page's `{"action":"retry"}` is the Retry command.
pub proof fn law_button_clicks(body: Seq<char>)
    requires
        forall|k: int| !occurs_at(body, "__theme:dark"@, k),
        forall|k: int| !occurs_at(body, "__theme:light"@, k),
        forall|k: int| !occurs_at(body, "__visible"@, k),
    ensures
        (exists|k: int| occurs_at(body, "upgrade"@, k)) ==> spec_classify_ipc(body)
            == (IpcMessage::UserCommand { command: Command::Upgrade }),
        (forall|k: int| !occurs_at(body, "upgrade"@, k)) && (exists|k: int|
            occurs_at(body, "skip"@, k)) ==> spec_classify_ipc(body) == (IpcMessage::UserCommand {
            command: Command::SkipUpdate,
        }),
        (forall|k: int| !occurs_at(body, "upgrade"@, k)) && (forall|k: int|
            !occurs_at(body, "skip"@, k)) && (exists|k: int| occurs_at(body, "retry"@, k))
            ==> spec_classify_ipc(body) == (IpcMessage::UserCommand { command: Command::Retry }),
        (forall|k: int| !occurs_at(body, "upgrade"@, k)) && (forall|k: int|
            !occurs_at(body, "skip"@, k)) && (forall|k: int| !occurs_at(body, "retry"@, k))
            ==> spec_classify_ipc(body) == IpcMessage::Ignored,
{
    lemma_contains_iff_occurs(body, "__theme:dark"@);
    lemma_contains_iff_occurs(body, "__theme:light"@);
    lemma_contains_iff_occurs(body, "__visible"@);
    lemma_contains_iff_occurs(body, "upgrade"@);
    lemma_contains_iff_occurs(body, "skip"@);
    lemma_contains_iff_occurs(body, "retry"@);
}

/// A theme or visibility ping wins over anything else the message holds.
pub proof fn law_pings_first(body: Seq<char>)
    ensures
        (exists|k: int| occurs_at(body, "__theme:dark"@, k)) ==> spec_classify_ipc(body)
            == (IpcMessage::Theme { dark: true }),
        (forall|k: int| !occurs_at(body, "__theme:dark"@, k)) && (exists|k: int|
            occurs_at(body, "__theme:light"@, k)) ==> spec_classify_ipc(body) == (IpcMessage::Theme {
            dark: false,
        }),
        (forall|k: int| !occurs_at(body, "__theme:dark"@, k)) && (forall|k: int|
            !occurs_at(body, "__theme:light"@, k)) && (exists|k: int|
            occurs_at(body, "__visible"@, k)) ==> spec_classify_ipc(body) == IpcMessage::Visible,
{
    lemma_contains_iff_occurs(body, "__theme:dark"@);
    lemma_contains_iff_occurs(body, "__theme:light"@);
    lemma_contains_iff_occurs(body, "__visible"@);
}

/// Read a message posted by the page.
pub fn classify_ipc(body: &str) -> (m: IpcMessage)
    ensures
        m == spec_classify_ipc(body@),
{
    if str_contains(body, "__theme:dark") {
        IpcMessage::Theme { dark: true }
    } else if str_contains(body, "__theme:light") {
        IpcMessage::Theme { dark: false }
    } else if str_contains(body, "__visible") {
        IpcMessage::Visible
    } else if str_contains(body, "upgrade") {
        IpcMessage::UserCommand { command: Command::Upgrade }
    } else if str_contains(body, "skip") {
        IpcMessage::UserCommand { command: Command::SkipUpdate }
    } else if str_contains(body, "retry") {
        IpcMessage::UserCommand { command: Command::Retry }
    } else {
        IpcMessage::Ignored
    }
}

/// Native window chrome colors, as COLORREF values (`0x00BBGGRR`).
#[derive(PartialEq, Eq, Structural, Clone, Copy, Debug)]
pub struct ChromeColors {
    /// Caption and border: dsh's bg-base.
    pub background: u32,
    /// Title text: dsh's label-primary.
    pub text: u32,
}

/// The chrome colors for the dark or light theme: bg-base `#151517` /
/// `#f9fafb`, label-primary `#f9fafb` / `#0f1115`.
pub fn chrome_colors(dark: bool) -> (c: ChromeColors)
    ensures
        dark ==> c == (ChromeColors { background: 0x0017_1515, text: 0x00FB_FAF9 }),
        !dark ==> c == (ChromeColors { background: 0x00FB_FAF9, text: 0x0015_110F }),
{
    if dark {
        ChromeColors { background: 0x0017_1515, text: 0x00FB_FAF9 }
    } else {
        ChromeColors { background: 0x00FB_FAF9, text: 0x0015_110F }
    }
}

/// The webview's background (RGBA), matching the init screen and dsh's UI:
/// `#151517` dark, `#f9fafb` light.
pub fn webview_background(dark: bool) -> (c: (u8, u8, u8, u8))
    ensures
        dark ==> c == (21u8, 21u8, 23u8, 255u8),
        !dark ==> c == (249u8, 250u8, 251u8, 255u8),
{
    if dark {
        (21, 21, 23, 255)
    } else {
        (249, 250, 251, 255)
    }
}

/// Whether the system asks for dark apps: the registry value
/// `AppsUseLightTheme` was read and is 0. An unreadable value means light.
pub fn prefers_dark(read_ok: bool, apps_use_light_theme: u32) -> (dark: bool)
    ensures
        dark == (read_ok && apps_use_light_theme == 0),
{
    read_ok && apps_use_light_theme == 0
}

/// Whether the window has been shown yet: it is made visible once, on the
/// first status or on the page's first "visible" message.
pub struct RevealOnce {
    pub revealed: bool,
}

impl RevealOnce {
    /// Not shown yet.
    pub fn new() -> (r: Self)
        ensures
            !r.revealed,
    {
        RevealOnce { revealed: false }
    }

    /// Ask to show the window: `true` (show it now) only the first time.
    pub fn show_now(&mut self) -> (show: bool)
        ensures
            show == !old(self).revealed,
            final(self).revealed,
    {
        let show = !self.revealed;
        self.revealed = true;
        show
    }
}

/// An escaped text holds no raw control character (no line break, tab or
/// other character below U+0020), so it stays one valid string literal.
pub proof fn law_escaped_has_no_control_chars(s: Seq<char>)
    ensures
        forall|i: int| 0 <= i < escape_all(s).len() ==> (#[trigger] escape_all(s)[i] as u32) >= 0x20,
    decreases s.len(),
{
    if s.len() > 0 {
        law_escaped_has_no_control_chars(s.drop_last());
        let c = s.last();
        let e = escape_char(c);
        let u = c as u32;
        if u < 0x20 && c != '\n' && c != '\r' && c != '\t' && c != '"' && c != '\\' {
            assert((u / 16) < 16);
            assert((u % 16) < 16);
            lemma_hex_digit_printable((u / 16) as nat);
            lemma_hex_digit_printable((u % 16) as nat);
        }
        assert(forall|i: int| 0 <= i < e.len() ==> (#[trigger] e[i] as u32) >= 0x20);
        let a = escape_all(s.drop_last());
        assert forall|i: int| 0 <= i < (a + e).len() implies (#[trigger] (a + e)[i] as u32) >= 0x20 by {
            if i < a.len() {
                assert((a + e)[i] == a[i]);
            } else {
                assert((a + e)[i] == e[i - a.len()]);
            }
        }
    }
}

/// The value of a hexadecimal digit, either case.
pub open spec fn hex_value(c: char) -> Option<nat> {
    if '0' <= c && c <= '9' {
        Some(((c as int) - ('0' as int)) as nat)
    } else if 'a' <= c && c <= 'f' {
        Some(((c as int) - ('a' as int) + 10) as nat)
    } else if 'A' <= c && c <= 'F' {
        Some(((c as int) - ('A' as int) + 10) as nat)
    } else {
        None
    }
}

/// `c` in front of a decoded text, if there is one.
pub open spec fn prepend(c: char, rest: Option<Seq<char>>) -> Option<Seq<char>> {
    match rest {
        Some(r) => Some(seq![c] + r),
        None => None,
    }
}

/// The character named by a `\uXXXX` escape: four hex digits giving a
/// Unicode scalar value (surrogate halves are not decoded).
pub open spec fn unicode_escape(t: Seq<char>) -> Option<char> {
    if t.len() >= 6 && t[1] == 'u' && hex_value(t[2]) is Some && hex_value(t[3]) is Some
        && hex_value(t[4]) is Some && hex_value(t[5]) is Some {
        let v = hex_value(t[2]).unwrap() * 4096 + hex_value(t[3]).unwrap() * 256 + hex_value(
            t[4],
        ).unwrap() * 16 + hex_value(t[5]).unwrap();
        if v < 0xD800 || 0xE000 <= v {
            Some((v as u32) as char)
        } else {
            None
        }
    } else {
        None
    }
}

/// The text a JSON (and JavaScript) string body stands for, or `None` when
/// it is not a valid body: a raw double quote or control character, or an
/// unknown escape.
pub open spec fn json_unescape(t: Seq<char>) -> Option<Seq<char>>
    decreases t.len(),
{
    if t.len() == 0 {
        Some(Seq::empty())
    } else if t[0] == '\\' {
        if t.len() < 2 {
            None
        } else if t[1] == '"' {
            prepend('"', json_unescape(t.skip(2)))
        } else if t[1] == '\\' {
            prepend('\\', json_unescape(t.skip(2)))
        } else if t[1] == '/' {
            prepend('/', json_unescape(t.skip(2)))
        } else if t[1] == 'n' {
            prepend('\n', json_unescape(t.skip(2)))
        } else if t[1] == 'r' {
            prepend('\r', json_unescape(t.skip(2)))
        } else if t[1] == 't' {
            prepend('\t', json_unescape(t.skip(2)))
        } else if t[1] == 'b' {
            prepend('\u{8}', json_unescape(t.skip(2)))
        } else if t[1] == 'f' {
            prepend('\u{c}', json_unescape(t.skip(2)))
        } else if t[1] == 'u' {
            match unicode_escape(t) {
                Some(c) => prepend(c, json_unescape(t.skip(6))),
                None => None,
            }
        } else {
            None
        }
    } else if t[0] == '"' || (t[0] as u32) < 0x20 {
        None
    } else {
        prepend(t[0], json_unescape(t.drop_first()))
    }
}

/// The text a double-quoted JSON string literal stands for, or `None` when
/// `lit` is not one.
pub open spec fn json_decode(lit: Seq<char>) -> Option<Seq<char>> {
    if lit.len() >= 2 && lit[0] == '"' && lit.last() == '"' {
        json_unescape(lit.subrange(1, lit.len() - 1))
    } else {
        None
    }
}

proof fn lemma_escape_all_front(s: Seq<char>)
    requires
        s.len() > 0,
    ensures
        escape_all(s) == escape_char(s[0]) + escape_all(s.drop_first()),
    decreases s.len(),
{
    if s.len() == 1 {
        assert(s.drop_last().len() == 0);
        assert(s.drop_first().len() == 0);
        assert(escape_all(s.drop_first()) =~= Seq::<char>::empty());
        assert(escape_all(s.drop_last()) =~= Seq::<char>::empty());
        assert(s.last() == s[0]);
        assert(escape_all(s) == escape_all(s.drop_last()) + escape_char(s.last()));
        assert(escape_all(s) =~= escape_char(s[0]) + escape_all(s.drop_first()));
    } else {
        let d = s.drop_last();
        lemma_escape_all_front(d);
        assert(d[0] == s[0]);
        assert(d.drop_first() =~= s.drop_first().drop_last());
        assert(s.drop_first().last() == s.last());
        assert(escape_all(s.drop_first()) == escape_all(s.drop_first().drop_last()) + escape_char(
            s.drop_first().last(),
        ));
        assert(escape_all(s) =~= escape_char(s[0]) + escape_all(s.drop_first()));
    }
}

proof fn lemma_hex_round_trip(d: nat)
    requires
        d < 16,
    ensures
        hex_value(hex_digit(d)) == Some(d),
{
}

proof fn lemma_unescape_char(c: char, rest: Seq<char>)
    ensures
        json_unescape(escape_char(c) + rest) == prepend(c, json_unescape(rest)),
{
    let t = escape_char(c) + rest;
    let u = c as u32;
    if c == '"' || c == '\\' || c == '\n' || c == '\r' || c == '\t' {
        assert(t.skip(2) =~= rest);
    } else if u < 0x20 {
        let hi = (u / 16) as nat;
        let lo = (u % 16) as nat;
        lemma_hex_round_trip(hi);
        lemma_hex_round_trip(lo);
        assert(hex_value('0') == Some(0nat));
        assert(t[2] == '0' && t[3] == '0');
        assert(t[4] == hex_digit(hi) && t[5] == hex_digit(lo));
        let v = 0nat * 4096 + 0nat * 256 + hi * 16 + lo;
        assert(v == u);
        assert(unicode_escape(t) == Some(c));
        assert(t.skip(6) =~= rest);
    } else {
        assert(t.drop_first() =~= rest);
    }
}

proof fn lemma_unescape_escaped(s: Seq<char>)
    ensures
        json_unescape(escape_all(s)) == Some(s),
    decreases s.len(),
{
    if s.len() == 0 {
    } else {
        lemma_escape_all_front(s);
        lemma_unescape_escaped(s.drop_first());
        lemma_unescape_char(s[0], escape_all(s.drop_first()));
        assert(seq![s[0]] + s.drop_first() =~= s);
    }
}

/// Quoting gives a valid JSON and JavaScript string literal that stands for
/// exactly the quoted text.
pub proof fn law_js_literal_decodes_back(s: Seq<char>)
    ensures
        json_decode(js_literal(s)) == Some(s),
{
    let lit = js_literal(s);
    lemma_unescape_escaped(s);
    assert(lit.subrange(1, lit.len() - 1) =~= escape_all(s));
}

/// Different texts are quoted differently.
pub proof fn law_js_literal_injective(a: Seq<char>, b: Seq<char>)
    requires
        js_literal(a) == js_literal(b),
    ensures
        a == b,
{
    law_js_literal_decodes_back(a);
    law_js_literal_decodes_back(b);
}

proof fn lemma_hex_digit_printable(d: nat)
    requires
        d < 16,
    ensures
        (hex_digit(d) as u32) >= 0x30,
{
}

/// Internal pings are never read as commands: a theme or visibility ping
/// is recognized even when the message also names a button.
pub proof fn law_pings_are_not_commands(body: Seq<char>)
    requires
        contains(body, "__theme:dark"@) || contains(body, "__theme:light"@) || contains(
            body,
            "__visible"@,
        ),
    ensures
        !(spec_classify_ipc(body) is UserCommand),
{
}

} // verus!
