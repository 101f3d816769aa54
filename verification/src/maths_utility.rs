//! Text processing for what notifications show: making sender text safe for Pango markup,
//! filling in format strings, and finding the URL to open in a text.
use vstd::prelude::*;
use chrono::TimeZone;
use std::fmt::Write;
use crate::chars::{
    char_is_white_space, char_utf8_width, chars_of, decimal_chars, has_prefix_at, is_boundary,
    is_white_space, push_decimal, starts_with, string_from_chars, utf8_len, utf8_width,
};
use crate::notification::Notification;

verus! {

/// A lower and an upper bound, as the configuration writes them.
#[derive(Clone, Copy, Debug, Default, PartialEq, Eq, Structural)]
pub struct MinMax {
    pub min: i32,
    pub max: i32,
}

/// Always `true`; the default for boolean configuration switches that are on unless set.
pub fn val_true() -> (r: bool)
    ensures
        r,
{
    true
}

pub open spec fn lt_entity() -> Seq<char> {
    seq!['&', 'l', 't', ';']
}

pub open spec fn gt_entity() -> Seq<char> {
    seq!['&', 'g', 't', ';']
}

pub open spec fn amp_entity() -> Seq<char> {
    seq!['&', 'a', 'm', 'p', ';']
}

pub open spec fn apos_numeric() -> Seq<char> {
    seq!['&', '#', '3', '9', ';']
}

pub open spec fn quot_numeric() -> Seq<char> {
    seq!['&', '#', '3', '4', ';']
}

pub open spec fn apos_named() -> Seq<char> {
    seq!['&', 'a', 'p', 'o', 's', ';']
}

pub open spec fn quot_named() -> Seq<char> {
    seq!['&', 'q', 'u', 'o', 't', ';']
}

/// Whether `s` begins with one of the three entities that Pango markup understands and that
/// escaping leaves as they are: `&lt;`, `&gt;`, `&amp;`.
pub open spec fn starts_with_kept_entity(s: Seq<char>) -> bool {
    starts_with(s, gt_entity()) || starts_with(s, lt_entity()) || starts_with(s, amp_entity())
}

/// `s` made safe for Pango markup: `<` becomes `&lt;`; `&gt;`, `&lt;` and `&amp;` stay;
/// `&#39;` and `&apos;` become `'`; `&#34;` and `&quot;` become `"`; any other `&` becomes
/// `&amp;`; everything else stays.
pub open spec fn escaped(s: Seq<char>) -> Seq<char>
    decreases s.len(),
{
    if s.len() == 0 {
        Seq::empty()
    } else if s[0] == '<' {
        lt_entity() + escaped(s.drop_first())
    } else if s[0] == '&' {
        if starts_with_kept_entity(s) {
            seq!['&'] + escaped(s.drop_first())
        } else if starts_with(s, apos_numeric()) {
            seq!['\''] + escaped(s.skip(5))
        } else if starts_with(s, quot_numeric()) {
            seq!['"'] + escaped(s.skip(5))
        } else if starts_with(s, apos_named()) {
            seq!['\''] + escaped(s.skip(6))
        } else if starts_with(s, quot_named()) {
            seq!['"'] + escaped(s.skip(6))
        } else {
            amp_entity() + escaped(s.drop_first())
        }
    } else {
        seq![s[0]] + escaped(s.drop_first())
    }
}

/// The first `w` bytes of `t` end between two characters, or `t` is shorter than `w` bytes.
pub open spec fn window_ok(t: Seq<char>, w: int) -> bool {
    utf8_len(t) >= w ==> is_boundary(t, w)
}

/// For text `t` that starts at an `&`: the byte windows that escaping compares against the
/// entities (4, then 5, then 6 bytes, stopping at the first match) end between characters.
pub open spec fn ampersand_safe(t: Seq<char>) -> bool {
    &&& window_ok(t, 4)
    &&& !(starts_with(t, gt_entity()) || starts_with(t, lt_entity())) ==> {
        &&& window_ok(t, 5)
        &&& !(starts_with(t, amp_entity()) || starts_with(t, apos_numeric()) || starts_with(
            t,
            quot_numeric(),
        )) ==> window_ok(t, 6)
    }
}

/// The inputs that escaping takes: at every `&`, the byte windows it compares end between
/// characters. Elsewhere the comparison would cut a character in two.
pub open spec fn escape_decode_safe(s: Seq<char>) -> bool {
    forall|k: int| 0 <= k < s.len() && s[k] == '&' ==> #[trigger] ampersand_safe(s.skip(k))
}

/// Text that Pango markup reads as written: no `<`, and every `&` begins `&lt;`, `&gt;` or
/// `&amp;`.
pub open spec fn pango_safe(t: Seq<char>) -> bool {
    forall|j: int|
        0 <= j < t.len() ==> #[trigger] t[j] != '<' && (t[j] == '&' ==> starts_with_kept_entity(
            t.skip(j),
        ))
}

fn push_all(out: &mut Vec<char>, p: &Vec<char>)
    ensures
        final(out)@ == old(out)@ + p@,
{
    let mut k: usize = 0;
    while k < p.len()
        invariant
            0 <= k <= p@.len(),
            out@ == old(out)@ + p@.take(k as int),
        decreases p@.len() - k,
    {
        out.push(p[k]);
        proof {
            assert(p@.take(k + 1) =~= p@.take(k as int).push(p@[k as int]));
        }
        k += 1;
    }
    assert(p@.take(k as int) =~= p@);
}

/// Whether `t`'s first `n` bytes are a whole number of characters, or `t` has fewer bytes.
fn window_ok_at(v: &Vec<char>, k: usize, n: usize) -> (b: bool)
    requires
        k <= v@.len(),
    ensures
        b == window_ok(v@.skip(k as int), n as int),
    decreases v@.len() - k,
{
    let ghost t = v@.skip(k as int);
    if n == 0 {
        return true;
    }
    if k == v.len() {
        assert(t.len() == 0);
        return true;
    }
    let w = char_utf8_width(v[k]);
    assert(t[0] == v@[k as int]);
    assert(t.drop_first() =~= v@.skip(k + 1));
    if n < w {
        false
    } else {
        window_ok_at(v, k + 1, n - w)
    }
}

/// Whether escaping accepts `to_escape`: see [`escape_decode_safe`].
pub fn escape_decode_accepts(to_escape: &str) -> (b: bool)
    ensures
        b == escape_decode_safe(to_escape@),
{
    let s = chars_of(to_escape);
    let gt = vec!['&', 'g', 't', ';'];
    let lt = vec!['&', 'l', 't', ';'];
    let amp = vec!['&', 'a', 'm', 'p', ';'];
    let apos_num = vec!['&', '#', '3', '9', ';'];
    let quot_num = vec!['&', '#', '3', '4', ';'];
    let mut k: usize = 0;
    while k < s.len()
        invariant
            s@ == to_escape@,
            gt@ == gt_entity(),
            lt@ == lt_entity(),
            amp@ == amp_entity(),
            apos_num@ == apos_numeric(),
            quot_num@ == quot_numeric(),
            0 <= k <= s@.len(),
            forall|j: int| 0 <= j < k && s@[j] == '&' ==> #[trigger] ampersand_safe(s@.skip(j)),
        decreases s@.len() - k,
    {
        if s[k] == '&' {
            let ok4 = window_ok_at(&s, k, 4);
            let first = has_prefix_at(&s, k, &gt) || has_prefix_at(&s, k, &lt);
            let ok = if !ok4 {
                false
            } else if first {
                true
            } else {
                let ok5 = window_ok_at(&s, k, 5);
                let second = has_prefix_at(&s, k, &amp) || has_prefix_at(&s, k, &apos_num)
                    || has_prefix_at(&s, k, &quot_num);
                if !ok5 {
                    false
                } else if second {
                    true
                } else {
                    window_ok_at(&s, k, 6)
                }
            };
            if !ok {
                assert(!ampersand_safe(s@.skip(k as int)));
                return false;
            }
        }
        k += 1;
    }
    true
}

/// `to_escape` made safe for Pango markup; see [`escaped`].
pub fn escape_decode(to_escape: &str) -> (r: String)
    requires
        escape_decode_safe(to_escape@),
    ensures
        r@ == escaped(to_escape@),
{
    let s = chars_of(to_escape);
    let gt = vec!['&', 'g', 't', ';'];
    let lt = vec!['&', 'l', 't', ';'];
    let amp = vec!['&', 'a', 'm', 'p', ';'];
    let apos_num = vec!['&', '#', '3', '9', ';'];
    let quot_num = vec!['&', '#', '3', '4', ';'];
    let apos_name = vec!['&', 'a', 'p', 'o', 's', ';'];
    let quot_name = vec!['&', 'q', 'u', 'o', 't', ';'];
    let mut out: Vec<char> = Vec::new();
    let mut i: usize = 0;
    proof {
        assert(s@.skip(0) =~= s@);
        assert(out@ + escaped(s@.skip(0)) =~= escaped(s@));
    }
    while i < s.len()
        invariant
            gt@ == gt_entity(),
            lt@ == lt_entity(),
            amp@ == amp_entity(),
            apos_num@ == apos_numeric(),
            quot_num@ == quot_numeric(),
            apos_name@ == apos_named(),
            quot_name@ == quot_named(),
            0 <= i <= s@.len(),
            escaped(s@) == out@ + escaped(s@.skip(i as int)),
        decreases s@.len() - i,
    {
        let ghost t = s@.skip(i as int);
        let ghost before = out@;
        assert(t[0] == s@[i as int]);
        assert(t.drop_first() =~= s@.skip(i + 1));
        let c = s[i];
        if c == '<' {
            push_all(&mut out, &lt);
            i += 1;
            assert(escaped(t) == lt_entity() + escaped(t.drop_first()));
            assert(out@ + escaped(s@.skip(i as int)) =~= before + escaped(t));
        } else if c == '&' {
            if has_prefix_at(&s, i, &gt) || has_prefix_at(&s, i, &lt) || has_prefix_at(
                &s,
                i,
                &amp,
            ) {
                out.push('&');
                i += 1;
                assert(out@ + escaped(s@.skip(i as int)) =~= before + escaped(t));
            } else if has_prefix_at(&s, i, &apos_num) {
                out.push('\'');
                assert(t.skip(5) =~= s@.skip(i + 5));
                i += 5;
                assert(out@ + escaped(s@.skip(i as int)) =~= before + escaped(t));
            } else if has_prefix_at(&s, i, &quot_num) {
                out.push('"');
                assert(t.skip(5) =~= s@.skip(i + 5));
                i += 5;
                assert(out@ + escaped(s@.skip(i as int)) =~= before + escaped(t));
            } else if has_prefix_at(&s, i, &apos_name) {
                out.push('\'');
                assert(t.skip(6) =~= s@.skip(i + 6));
                i += 6;
                assert(out@ + escaped(s@.skip(i as int)) =~= before + escaped(t));
            } else if has_prefix_at(&s, i, &quot_name) {
                out.push('"');
                assert(t.skip(6) =~= s@.skip(i + 6));
                i += 6;
                assert(out@ + escaped(s@.skip(i as int)) =~= before + escaped(t));
            } else {
                push_all(&mut out, &amp);
                i += 1;
                assert(out@ + escaped(s@.skip(i as int)) =~= before + escaped(t));
            }
        } else {
            out.push(c);
            i += 1;
            assert(out@ + escaped(s@.skip(i as int)) =~= before + escaped(t));
        }
    }
    assert(s@.skip(i as int) =~= Seq::<char>::empty());
    assert(out@ =~= escaped(s@));
    string_from_chars(&out)
}


/// Characters that escaping copies unchanged: anything but `<` and `&`.
pub open spec fn plain_chars(p: Seq<char>) -> bool {
    forall|i: int| 0 <= i < p.len() ==> #[trigger] p[i] != '<' && p[i] != '&'
}

proof fn lemma_plain_prefix(s: Seq<char>, p: Seq<char>)
    requires
        starts_with(s, p),
        plain_chars(p),
    ensures
        escaped(s) == p + escaped(s.skip(p.len() as int)),
    decreases p.len(),
{
    if p.len() == 0 {
        assert(s.skip(0) =~= s);
        assert(p + escaped(s) =~= escaped(s));
    } else {
        assert(s[0] == p[0]);
        assert(s.drop_first().take(p.len() - 1) =~= p.drop_first());
        lemma_plain_prefix(s.drop_first(), p.drop_first());
        assert(s.drop_first().skip(p.len() - 1) =~= s.skip(p.len() as int));
        assert(seq![p[0]] + (p.drop_first() + escaped(s.skip(p.len() as int))) =~= p + escaped(
            s.skip(p.len() as int),
        ));
    }
}

proof fn lemma_pango_safe_concat(e: Seq<char>, b: Seq<char>)
    requires
        pango_safe(e),
        pango_safe(b),
    ensures
        pango_safe(e + b),
{
    let t = e + b;
    assert forall|j: int| 0 <= j < t.len() implies #[trigger] t[j] != '<' && (t[j] == '&'
        ==> starts_with_kept_entity(t.skip(j))) by {
        if j < e.len() {
            assert(t[j] == e[j]);
            if e[j] == '&' {
                assert(starts_with_kept_entity(e.skip(j)));
                let u = e.skip(j);
                assert(t.skip(j) =~= u + b);
                if starts_with(u, gt_entity()) {
                    assert((u + b).take(4) =~= u.take(4));
                } else if starts_with(u, lt_entity()) {
                    assert((u + b).take(4) =~= u.take(4));
                } else {
                    assert((u + b).take(5) =~= u.take(5));
                }
            }
        } else {
            assert(t[j] == b[j - e.len()]);
            assert(t.skip(j) =~= b.skip(j - e.len()));
        }
    }
}

proof fn lemma_entities_pango_safe()
    ensures
        pango_safe(lt_entity()),
        pango_safe(gt_entity()),
        pango_safe(amp_entity()),
{
    assert(lt_entity().skip(0) =~= lt_entity());
    assert(gt_entity().skip(0) =~= gt_entity());
    assert(amp_entity().skip(0) =~= amp_entity());
    assert(lt_entity().skip(0).take(4) =~= lt_entity());
    assert(gt_entity().skip(0).take(4) =~= gt_entity());
    assert(amp_entity().skip(0).take(5) =~= amp_entity());
}

proof fn lemma_single_pango_safe(c: char)
    requires
        c != '<',
        c != '&',
    ensures
        pango_safe(seq![c]),
{
}

proof fn lemma_kept_entity_output(s: Seq<char>)
    requires
        s.len() > 0,
        s[0] == '&',
        starts_with_kept_entity(s),
    ensures
        exists|e: Seq<char>, n: int|
            (e == gt_entity() || e == lt_entity() || e == amp_entity()) && 0 < n <= s.len()
                && n == e.len() && escaped(s) == e + escaped(s.skip(n)),
{
    let r = s.drop_first();
    if starts_with(s, gt_entity()) {
        let p = seq!['g', 't', ';'];
        assert(r.take(3) =~= p);
        lemma_plain_prefix(r, p);
        assert(r.skip(3) =~= s.skip(4));
        assert(seq!['&'] + (p + escaped(s.skip(4))) =~= gt_entity() + escaped(s.skip(4)));
    } else if starts_with(s, lt_entity()) {
        let p = seq!['l', 't', ';'];
        assert(r.take(3) =~= p);
        lemma_plain_prefix(r, p);
        assert(r.skip(3) =~= s.skip(4));
        assert(seq!['&'] + (p + escaped(s.skip(4))) =~= lt_entity() + escaped(s.skip(4)));
    } else {
        let p = seq!['a', 'm', 'p', ';'];
        assert(r.take(4) =~= p);
        lemma_plain_prefix(r, p);
        assert(r.skip(4) =~= s.skip(5));
        assert(seq!['&'] + (p + escaped(s.skip(5))) =~= amp_entity() + escaped(s.skip(5)));
    }
}

/// Escaped text is safe for Pango markup: it holds no `<`, and each `&` in it begins
/// `&lt;`, `&gt;` or `&amp;`.
pub proof fn escaped_is_pango_safe(s: Seq<char>)
    ensures
        pango_safe(escaped(s)),
    decreases s.len(),
{
    lemma_entities_pango_safe();
    if s.len() == 0 {
    } else if s[0] == '<' {
        escaped_is_pango_safe(s.drop_first());
        lemma_pango_safe_concat(lt_entity(), escaped(s.drop_first()));
    } else if s[0] == '&' {
        if starts_with_kept_entity(s) {
            lemma_kept_entity_output(s);
            let (e, n) = choose|e: Seq<char>, n: int|
                (e == gt_entity() || e == lt_entity() || e == amp_entity()) && 0 < n <= s.len()
                    && n == e.len() && escaped(s) == e + escaped(s.skip(n));
            escaped_is_pango_safe(s.skip(n));
            lemma_pango_safe_concat(e, escaped(s.skip(n)));
        } else if starts_with(s, apos_numeric()) || starts_with(s, quot_numeric()) {
            escaped_is_pango_safe(s.skip(5));
            lemma_single_pango_safe('\'');
            lemma_single_pango_safe('"');
            lemma_pango_safe_concat(seq!['\''], escaped(s.skip(5)));
            lemma_pango_safe_concat(seq!['"'], escaped(s.skip(5)));
        } else if starts_with(s, apos_named()) || starts_with(s, quot_named()) {
            escaped_is_pango_safe(s.skip(6));
            lemma_single_pango_safe('\'');
            lemma_single_pango_safe('"');
            lemma_pango_safe_concat(seq!['\''], escaped(s.skip(6)));
            lemma_pango_safe_concat(seq!['"'], escaped(s.skip(6)));
        } else {
            escaped_is_pango_safe(s.drop_first());
            lemma_pango_safe_concat(amp_entity(), escaped(s.drop_first()));
        }
    } else {
        escaped_is_pango_safe(s.drop_first());
        lemma_single_pango_safe(s[0]);
        lemma_pango_safe_concat(seq![s[0]], escaped(s.drop_first()));
    }
}

/// Escaping leaves text that is already safe for Pango markup as it is.
pub proof fn escaping_keeps_pango_safe_text(t: Seq<char>)
    requires
        pango_safe(t),
    ensures
        escaped(t) == t,
    decreases t.len(),
{
    if t.len() > 0 {
        let r = t.drop_first();
        assert(pango_safe(r)) by {
            assert forall|j: int| 0 <= j < r.len() implies #[trigger] r[j] != '<' && (r[j] == '&'
                ==> starts_with_kept_entity(r.skip(j))) by {
                assert(r[j] == t[j + 1]);
                assert(r.skip(j) =~= t.skip(j + 1));
            }
        }
        escaping_keeps_pango_safe_text(r);
        assert(t[0] != '<');
        if t[0] == '&' {
            assert(t.skip(0) =~= t);
        }
        assert(seq![t[0]] + r =~= t);
    }
}

/// Escaping twice is escaping once.
pub proof fn escape_decode_idempotent(s: Seq<char>)
    ensures
        escaped(escaped(s)) == escaped(s),
{
    escaped_is_pango_safe(s);
    escaping_keeps_pango_safe_text(escaped(s));
}

/// Whether every character of `p` is ASCII.
pub open spec fn ascii_chars(p: Seq<char>) -> bool {
    forall|i: int| 0 <= i < p.len() ==> (#[trigger] p[i] as u32) < 0x80
}

proof fn lemma_ascii_prefix_boundary(u: Seq<char>, p: Seq<char>)
    requires
        starts_with(u, p),
        ascii_chars(p),
    ensures
        is_boundary(u, p.len() as int),
        utf8_len(u) >= p.len(),
    decreases p.len(),
{
    if p.len() > 0 {
        assert(u[0] == p[0]);
        assert(u.drop_first().take(p.len() - 1) =~= p.drop_first());
        lemma_ascii_prefix_boundary(u.drop_first(), p.drop_first());
    }
}

proof fn lemma_entities_ascii()
    ensures
        ascii_chars(lt_entity()),
        ascii_chars(gt_entity()),
        ascii_chars(amp_entity()),
{
}

/// Escaped text can be escaped again: escaping accepts its own output.
pub proof fn escaped_is_accepted(s: Seq<char>)
    ensures
        escape_decode_safe(escaped(s)),
{
    let t = escaped(s);
    escaped_is_pango_safe(s);
    lemma_entities_ascii();
    assert forall|k: int| 0 <= k < t.len() && t[k] == '&' implies #[trigger] ampersand_safe(
        t.skip(k),
    ) by {
        let u = t.skip(k);
        assert(starts_with_kept_entity(u));
        if starts_with(u, gt_entity()) {
            lemma_ascii_prefix_boundary(u, gt_entity());
        } else if starts_with(u, lt_entity()) {
            lemma_ascii_prefix_boundary(u, lt_entity());
        } else {
            lemma_ascii_prefix_boundary(u, amp_entity());
            assert(u.take(4) =~= amp_entity().take(4));
            lemma_ascii_prefix_boundary(u, amp_entity().take(4));
        }
    }
}


/// One part of a notification format string, as text.
pub enum SpecFormatPiece {
    Text(char),
    Summary,
    Body,
    AppName,
    ActionName,
    Id,
    Time(Seq<char>),
}

/// One part of a notification format string: a character to copy, or a field of the
/// notification to put in its place (`%s` summary, `%b` body, `%n` application name,
/// `%a` action name, `%i` identifier, `%t(format)` arrival time).
#[derive(Debug)]
pub enum FormatPiece {
    Text(char),
    Summary,
    Body,
    AppName,
    ActionName,
    Id,
    Time(Vec<char>),
}

impl View for FormatPiece {
    type V = SpecFormatPiece;

    open spec fn view(&self) -> SpecFormatPiece {
        match self {
            FormatPiece::Text(c) => SpecFormatPiece::Text(*c),
            FormatPiece::Summary => SpecFormatPiece::Summary,
            FormatPiece::Body => SpecFormatPiece::Body,
            FormatPiece::AppName => SpecFormatPiece::AppName,
            FormatPiece::ActionName => SpecFormatPiece::ActionName,
            FormatPiece::Id => SpecFormatPiece::Id,
            FormatPiece::Time(f) => SpecFormatPiece::Time(f@),
        }
    }
}

/// `c` is the first index of `r` that holds `)`.
pub open spec fn first_close_at(r: Seq<char>, c: int) -> bool {
    0 <= c < r.len() && r[c] == ')' && forall|i: int| 0 <= i < c ==> r[i] != ')'
}

/// For text `r` that follows `%t`: the time format between `(` and the first `)`, and how
/// many characters that takes with the parentheses; `None` when `r` does not start with `(`
/// or has no `)`.
pub open spec fn time_format(r: Seq<char>) -> Option<(Seq<char>, int)> {
    if r.len() > 0 && r[0] == '(' && exists|c: int| first_close_at(r, c) {
        let c = choose|c: int| first_close_at(r, c);
        Some((r.subrange(1, c), c + 1))
    } else {
        None
    }
}

/// The part that a format string `s` begins with, and how many characters it takes.
/// A `%` before the last character reads the next one: `s`, `b`, `n`, `a`, `i` name a field;
/// `t` names the time when more than four bytes remain from the `%` on, with the format in
/// the parentheses that follow (or an empty format without them); anything else leaves the
/// `%` as text.
pub open spec fn format_step(s: Seq<char>) -> (SpecFormatPiece, int) {
    if s.len() <= 1 || s[0] != '%' {
        (SpecFormatPiece::Text(s[0]), 1)
    } else if s[1] == 't' && utf8_len(s) > 4 {
        match time_format(s.skip(2)) {
            Some((f, n)) => (SpecFormatPiece::Time(f), 2 + n),
            None => (SpecFormatPiece::Time(Seq::empty()), 2),
        }
    } else if s[1] == 's' {
        (SpecFormatPiece::Summary, 2)
    } else if s[1] == 'b' {
        (SpecFormatPiece::Body, 2)
    } else if s[1] == 'n' {
        (SpecFormatPiece::AppName, 2)
    } else if s[1] == 'a' {
        (SpecFormatPiece::ActionName, 2)
    } else if s[1] == 'i' {
        (SpecFormatPiece::Id, 2)
    } else {
        (SpecFormatPiece::Text('%'), 1)
    }
}

proof fn lemma_format_step_consumes(s: Seq<char>)
    requires
        s.len() > 0,
    ensures
        1 <= format_step(s).1 <= s.len(),
{
    if s.len() > 1 && s[0] == '%' && s[1] == 't' && utf8_len(s) > 4 {
        let r = s.skip(2);
        if r.len() > 0 && r[0] == '(' && exists|c: int| first_close_at(r, c) {
            let c = choose|c: int| first_close_at(r, c);
            assert(first_close_at(r, c));
        }
    }
}

/// The parts of format string `s`, in order.
pub open spec fn format_pieces(s: Seq<char>) -> Seq<SpecFormatPiece>
    decreases s.len(),
{
    if s.len() == 0 {
        Seq::empty()
    } else {
        let (p, n) = format_step(s);
        if 1 <= n <= s.len() {
            seq![p] + format_pieces(s.skip(n))
        } else {
            Seq::empty()
        }
    }
}

/// The format strings that formatting takes: wherever a `%` is read with a character after
/// it, that character is a single byte. Elsewhere reading the pair would cut a character in
/// two.
pub open spec fn format_string_safe(s: Seq<char>) -> bool
    decreases s.len(),
{
    if s.len() == 0 {
        true
    } else {
        let n = format_step(s).1;
        &&& (s.len() >= 2 && s[0] == '%' ==> utf8_width(s[1]) == 1)
        &&& (1 <= n <= s.len() ==> format_string_safe(s.skip(n)))
    }
}

/// How many time parts `pieces` holds.
pub open spec fn count_times(pieces: Seq<SpecFormatPiece>) -> nat
    decreases pieces.len(),
{
    if pieces.len() == 0 {
        0
    } else {
        (if pieces[0] is Time {
            1nat
        } else {
            0nat
        }) + count_times(pieces.drop_first())
    }
}

/// The formats of the time parts (`%t(format)`) of `pieces`, in order.
pub open spec fn time_formats_of(pieces: Seq<SpecFormatPiece>) -> Seq<Seq<char>>
    decreases pieces.len(),
{
    if pieces.len() == 0 {
        Seq::empty()
    } else {
        match pieces[0] {
            SpecFormatPiece::Time(f) => seq![f] + time_formats_of(pieces.drop_first()),
            _ => time_formats_of(pieces.drop_first()),
        }
    }
}

proof fn lemma_time_formats_len(pieces: Seq<SpecFormatPiece>)
    ensures
        time_formats_of(pieces).len() == count_times(pieces),
    decreases pieces.len(),
{
    if pieces.len() > 0 {
        lemma_time_formats_len(pieces.drop_first());
    }
}

proof fn lemma_time_formats_push(ps: Seq<SpecFormatPiece>, p: SpecFormatPiece)
    ensures
        time_formats_of(ps.push(p)) == time_formats_of(ps) + match p {
            SpecFormatPiece::Time(f) => seq![f],
            _ => Seq::<Seq<char>>::empty(),
        },
    decreases ps.len(),
{
    if ps.len() > 0 {
        lemma_time_formats_push(ps.drop_first(), p);
        assert(ps.push(p).drop_first() =~= ps.drop_first().push(p));
        assert(ps.push(p)[0] == ps[0]);
        match ps[0] {
            SpecFormatPiece::Time(f) => {
                assert(seq![f] + (time_formats_of(ps.drop_first()) + match p {
                    SpecFormatPiece::Time(g) => seq![g],
                    _ => Seq::<Seq<char>>::empty(),
                }) =~= (seq![f] + time_formats_of(ps.drop_first())) + match p {
                    SpecFormatPiece::Time(g) => seq![g],
                    _ => Seq::<Seq<char>>::empty(),
                });
            },
            _ => {},
        }
    } else {
        assert(ps.push(p).drop_first() =~= Seq::<SpecFormatPiece>::empty());
        assert(ps.push(p)[0] == p);
        assert(time_formats_of(Seq::<SpecFormatPiece>::empty()) =~= Seq::<Seq<char>>::empty());
        match p {
            SpecFormatPiece::Time(f) => {
                assert(seq![f] + Seq::<Seq<char>>::empty() =~= seq![f]);
            },
            _ => {},
        }
        assert(time_formats_of(ps) =~= Seq::<Seq<char>>::empty());
        assert(time_formats_of(ps) + Seq::<Seq<char>>::empty() =~= Seq::<Seq<char>>::empty());
    }
}

/// The text that `pieces` make for notification `n` and action name `action`, the time
/// parts taking the texts `times` in order.
pub open spec fn render(
    pieces: Seq<SpecFormatPiece>,
    action: Seq<char>,
    n: Notification,
    times: Seq<Seq<char>>,
) -> Seq<char>
    decreases pieces.len(),
{
    if pieces.len() == 0 {
        Seq::empty()
    } else {
        let rest = pieces.drop_first();
        match pieces[0] {
            SpecFormatPiece::Text(c) => seq![c] + render(rest, action, n, times),
            SpecFormatPiece::Summary => n.summary@ + render(rest, action, n, times),
            SpecFormatPiece::Body => n.body@ + render(rest, action, n, times),
            SpecFormatPiece::AppName => n.app_name@ + render(rest, action, n, times),
            SpecFormatPiece::ActionName => action + render(rest, action, n, times),
            SpecFormatPiece::Id => decimal_chars(n.id as nat) + render(rest, action, n, times),
            SpecFormatPiece::Time(_) => if times.len() > 0 {
                times[0] + render(rest, action, n, times.drop_first())
            } else {
                render(rest, action, n, times)
            },
        }
    }
}

/// Whether the UTF-8 encoding of `v[k..]` is longer than `bound` bytes.
fn utf8_len_exceeds(v: &Vec<char>, k: usize, bound: usize) -> (b: bool)
    requires
        k <= v@.len(),
    ensures
        b == (utf8_len(v@.skip(k as int)) > bound),
    decreases v@.len() - k,
{
    let ghost t = v@.skip(k as int);
    if k == v.len() {
        assert(t.len() == 0);
        return false;
    }
    assert(t[0] == v@[k as int]);
    assert(t.drop_first() =~= v@.skip(k + 1));
    let w = char_utf8_width(v[k]);
    if w > bound {
        true
    } else {
        utf8_len_exceeds(v, k + 1, bound - w)
    }
}

/// The part that `v[k..]` begins with, and how many characters it takes; see
/// [`format_step`].
fn next_format_piece(v: &Vec<char>, k: usize) -> (r: (FormatPiece, usize))
    requires
        k < v@.len(),
    ensures
        (r.0@, r.1 as int) == format_step(v@.skip(k as int)),
{
    let ghost s = v@.skip(k as int);
    assert(s[0] == v@[k as int]);
    if k >= v.len() - 1 || v[k] != '%' {
        return (FormatPiece::Text(v[k]), 1);
    }
    assert(s[1] == v@[k + 1]);
    let c = v[k + 1];
    if c == 't' && utf8_len_exceeds(v, k, 4) {
        let ghost r = s.skip(2);
        assert(r =~= v@.skip(k + 2));
        if k + 2 < v.len() && v[k + 2] == '(' {
            assert(r[0] == v@[k + 2]);
            let mut j: usize = k + 2;
            while j < v.len()
                invariant
                    s == v@.skip(k as int),
                    r == s.skip(2),
                    s.len() > 1 && s[0] == '%' && s[1] == 't' && utf8_len(s) > 4,
                    k + 2 <= j <= v@.len(),
                    v@[k + 2] == '(',
                    r == v@.skip(k + 2),
                    forall|i: int| 0 <= i < j - (k + 2) ==> r[i] != ')',
                decreases v@.len() - j,
            {
                if v[j] == ')' {
                    let ghost c = j - (k + 2);
                    assert(first_close_at(r, c));
                    let mut f: Vec<char> = Vec::new();
                    let mut m: usize = k + 3;
                    while m < j
                        invariant
                            k + 3 <= m <= j,
                            j < v@.len(),
                            f@ == v@.subrange(k + 3, m as int),
                        decreases j - m,
                    {
                        f.push(v[m]);
                        assert(v@.subrange(k + 3, m + 1) =~= v@.subrange(k + 3, m as int).push(
                            v@[m as int],
                        ));
                        m += 1;
                    }
                    proof {
                        let c2 = choose|c: int| first_close_at(r, c);
                        assert(c2 == c) by {
                            if c2 < c {
                                assert(r[c2] != ')');
                            } else if c < c2 {
                                assert(r[c] != ')');
                            }
                        }
                        assert(f@ =~= r.subrange(1, c));
                        assert(r.len() > 0 && r[0] == '(');
                        assert(time_format(r) == Some((f@, c + 1)));
                        assert(s.len() > 1 && s[0] == '%' && s[1] == 't' && utf8_len(s) > 4);
                        assert(format_step(s) == (SpecFormatPiece::Time(f@), 2 + c + 1));
                    }
                    return (FormatPiece::Time(f), 2 + (j - (k + 2)) + 1);
                }
                j += 1;
            }
            assert(!exists|c: int| first_close_at(r, c));
        }
        return (FormatPiece::Time(Vec::new()), 2);
    }
    if c == 's' {
        (FormatPiece::Summary, 2)
    } else if c == 'b' {
        (FormatPiece::Body, 2)
    } else if c == 'n' {
        (FormatPiece::AppName, 2)
    } else if c == 'a' {
        (FormatPiece::ActionName, 2)
    } else if c == 'i' {
        (FormatPiece::Id, 2)
    } else {
        (FormatPiece::Text('%'), 1)
    }
}

/// The parts of format string `format_string`, in order; see [`format_pieces`].
pub fn parse_format_string(format_string: &str) -> (pieces: Vec<FormatPiece>)
    ensures
        pieces@.map_values(|p: FormatPiece| p@) == format_pieces(format_string@),
{
    let v = chars_of(format_string);
    let mut out: Vec<FormatPiece> = Vec::new();
    let mut k: usize = 0;
    proof {
        assert(v@.skip(0) =~= v@);
        assert(out@.map_values(|p: FormatPiece| p@) + format_pieces(v@.skip(0)) =~= format_pieces(
            v@,
        ));
    }
    while k < v.len()
        invariant
            v@ == format_string@,
            0 <= k <= v@.len(),
            format_pieces(v@) == out@.map_values(|p: FormatPiece| p@) + format_pieces(
                v@.skip(k as int),
            ),
        decreases v@.len() - k,
    {
        let ghost s = v@.skip(k as int);
        let ghost before = out@.map_values(|p: FormatPiece| p@);
        proof {
            lemma_format_step_consumes(s);
        }
        let (p, n) = next_format_piece(&v, k);
        let ghost pv = p@;
        out.push(p);
        proof {
            assert(s.skip(n as int) =~= v@.skip(k + n));
            assert(out@.map_values(|p: FormatPiece| p@) =~= before.push(pv));
            assert(format_pieces(s) == seq![pv] + format_pieces(s.skip(n as int)));
            assert(before + format_pieces(s) =~= before.push(pv) + format_pieces(
                v@.skip(k + n),
            ));
        }
        k += n;
    }
    proof {
        assert(v@.skip(k as int) =~= Seq::<char>::empty());
        assert(out@.map_values(|p: FormatPiece| p@) + Seq::<SpecFormatPiece>::empty()
            =~= out@.map_values(|p: FormatPiece| p@));
    }
    out
}

/// Whether formatting takes `format_string`; see [`format_string_safe`].
pub fn format_string_accepts(format_string: &str) -> (b: bool)
    ensures
        b == format_string_safe(format_string@),
{
    let v = chars_of(format_string);
    let mut k: usize = 0;
    proof {
        assert(v@.skip(0) =~= v@);
    }
    while k < v.len()
        invariant
            v@ == format_string@,
            0 <= k <= v@.len(),
            format_string_safe(v@) == format_string_safe(v@.skip(k as int)),
        decreases v@.len() - k,
    {
        let ghost s = v@.skip(k as int);
        proof {
            lemma_format_step_consumes(s);
        }
        if k + 1 < v.len() && v[k] == '%' {
            assert(s[0] == v@[k as int]);
            assert(s[1] == v@[k + 1]);
            if char_utf8_width(v[k + 1]) != 1 {
                return false;
            }
        }
        let (_p, n) = next_format_piece(&v, k);
        assert(s.skip(n as int) =~= v@.skip(k + n));
        k += n;
    }
    assert(v@.skip(k as int).len() == 0);
    true
}

fn push_string(out: &mut Vec<char>, s: &String)
    ensures
        final(out)@ == old(out)@ + s@,
{
    let v = chars_of(s.as_str());
    push_all(out, &v);
}

/// The text that `pieces` make for `notification` and action name `action_name`, the time
/// parts taking the texts `times` in order; see [`render`].
pub fn render_format(
    pieces: &Vec<FormatPiece>,
    action_name: &str,
    notification: &Notification,
    times: &Vec<String>,
) -> (r: String)
    ensures
        r@ == render(
            pieces@.map_values(|p: FormatPiece| p@),
            action_name@,
            *notification,
            times@.map_values(|t: String| t@),
        ),
{
    let ghost ps = pieces@.map_values(|p: FormatPiece| p@);
    let ghost ts = times@.map_values(|t: String| t@);
    let action = chars_of(action_name);
    let mut out: Vec<char> = Vec::new();
    let mut k: usize = 0;
    let mut t: usize = 0;
    proof {
        assert(ps.skip(0) =~= ps);
        assert(ts.skip(0) =~= ts);
        assert(out@ + render(ps.skip(0), action_name@, *notification, ts.skip(0)) =~= render(
            ps,
            action_name@,
            *notification,
            ts,
        ));
    }
    while k < pieces.len()
        invariant
            ps == pieces@.map_values(|p: FormatPiece| p@),
            ts == times@.map_values(|t: String| t@),
            action@ == action_name@,
            0 <= k <= pieces@.len(),
            t <= ts.len(),
            render(ps, action_name@, *notification, ts) == out@ + render(
                ps.skip(k as int),
                action_name@,
                *notification,
                ts.skip(t as int),
            ),
        decreases pieces@.len() - k,
    {
        let ghost rest_t = ts.skip(t as int);
        let ghost before = out@;
        let ghost pk = ps.skip(k as int);
        assert(pk[0] == pieces@[k as int]@);
        assert(pk.drop_first() =~= ps.skip(k + 1));
        match &pieces[k] {
            FormatPiece::Text(c) => {
                out.push(*c);
                assert(before + render(pk, action_name@, *notification, rest_t) =~= out@ + render(
                    ps.skip(k + 1),
                    action_name@,
                    *notification,
                    rest_t,
                ));
            },
            FormatPiece::Summary => {
                push_string(&mut out, &notification.summary);
                assert(before + render(pk, action_name@, *notification, rest_t) =~= out@ + render(
                    ps.skip(k + 1),
                    action_name@,
                    *notification,
                    rest_t,
                ));
            },
            FormatPiece::Body => {
                push_string(&mut out, &notification.body);
                assert(before + render(pk, action_name@, *notification, rest_t) =~= out@ + render(
                    ps.skip(k + 1),
                    action_name@,
                    *notification,
                    rest_t,
                ));
            },
            FormatPiece::AppName => {
                push_string(&mut out, &notification.app_name);
                assert(before + render(pk, action_name@, *notification, rest_t) =~= out@ + render(
                    ps.skip(k + 1),
                    action_name@,
                    *notification,
                    rest_t,
                ));
            },
            FormatPiece::ActionName => {
                push_all(&mut out, &action);
                assert(before + render(pk, action_name@, *notification, rest_t) =~= out@ + render(
                    ps.skip(k + 1),
                    action_name@,
                    *notification,
                    rest_t,
                ));
            },
            FormatPiece::Id => {
                push_decimal(notification.id as u64, &mut out);
                assert(before + render(pk, action_name@, *notification, rest_t) =~= out@ + render(
                    ps.skip(k + 1),
                    action_name@,
                    *notification,
                    rest_t,
                ));
            },
            FormatPiece::Time(_) => {
                if t < times.len() {
                    push_string(&mut out, &times[t]);
                    assert(rest_t[0] == ts[t as int]);
                    assert(rest_t.drop_first() =~= ts.skip(t + 1));
                    assert(before + render(pk, action_name@, *notification, rest_t) =~= out@
                        + render(ps.skip(k + 1), action_name@, *notification, ts.skip(t + 1)));
                    t += 1;
                } else {
                    assert(ts.len() == times@.len());
                    assert(t == ts.len());
                    assert(rest_t =~= Seq::<Seq<char>>::empty());
                    assert(before + render(pk, action_name@, *notification, rest_t) =~= out@
                        + render(ps.skip(k + 1), action_name@, *notification, rest_t));
                }
            },
        }
        k += 1;
    }
    proof {
        assert(ps.skip(k as int) =~= Seq::<SpecFormatPiece>::empty());
        assert(out@ + Seq::<char>::empty() =~= out@);
    }
    string_from_chars(&out)
}

/// The formats of the time parts of `pieces`, in order: what the arrival time is written
/// by, one text for each `%t(format)` part.
pub fn time_formats(pieces: &Vec<FormatPiece>) -> (r: Vec<String>)
    ensures
        r@.map_values(|s: String| s@) == time_formats_of(pieces@.map_values(|p: FormatPiece| p@)),
{
    let ghost ps = pieces@.map_values(|p: FormatPiece| p@);
    let mut r: Vec<String> = Vec::new();
    let mut k: usize = 0;
    proof {
        assert(ps.take(0) =~= Seq::<SpecFormatPiece>::empty());
        assert(r@.map_values(|s: String| s@) =~= Seq::<Seq<char>>::empty());
    }
    while k < pieces.len()
        invariant
            ps == pieces@.map_values(|p: FormatPiece| p@),
            0 <= k <= pieces@.len(),
            r@.map_values(|s: String| s@) == time_formats_of(ps.take(k as int)),
        decreases pieces@.len() - k,
    {
        proof {
            lemma_time_formats_push(ps.take(k as int), ps[k as int]);
            assert(ps.take(k + 1) =~= ps.take(k as int).push(ps[k as int]));
        }
        let ghost before = r@;
        match &pieces[k] {
            FormatPiece::Time(f) => {
                let s = string_from_chars(f.as_slice());
                r.push(s);
                proof {
                    assert(r@.map_values(|s: String| s@) =~= before.map_values(|s: String| s@)
                        + seq![f@]);
                }
            },
            _ => {
                proof {
                    assert(time_formats_of(ps.take(k as int)) + Seq::<Seq<char>>::empty()
                        =~= time_formats_of(ps.take(k as int)));
                }
            },
        }
        k += 1;
    }
    proof {
        assert(ps.take(k as int) =~= ps);
    }
    r
}

/// `chrono::Local.timestamp_opt(secs, nanos)` written with `format(fmt)`: the arrival time in
/// the machine's local time zone, by the chrono format `fmt`. Nothing is said of the text,
/// which depends on the time zone; it is empty when the time is not a single local time, and
/// stops where chrono meets a format item it cannot write.
///
/// No argument can make the call panic: chrono turns seconds outside its date range into
/// no time at all before it looks up the zone, and within that range (years of at most six
/// digits) the zone lookup's own range checks hold. What the lookup still depends on is the
/// machine's time-zone data: a zone file whose offset is a day or more makes chrono panic,
/// and no condition on the arguments can rule that out, so none is stated.
#[verifier::external_body]
fn format_local_time(secs: i64, nanos: u32, fmt: &str) -> String {
    let mut out = String::new();
    if let chrono::LocalResult::Single(t) = chrono::Local.timestamp_opt(secs, nanos) {
        let _ = write!(out, "{}", t.format(fmt));
    }
    out
}

/// `format_string` with its fields filled in for `notification`, `%a` being `action_name`
/// (see [`format_pieces`]). The arrival time is written in the machine's local time zone,
/// which the result depends on; for each `%t` part it holds some text in that place.
pub fn format_action_notification_string(
    format_string: &str,
    action_name: &str,
    notification: &Notification,
) -> (r: String)
    requires
        format_string_safe(format_string@),
    ensures
        exists|times: Seq<Seq<char>>|
            times.len() == count_times(format_pieces(format_string@)) && r@ == render(
                format_pieces(format_string@),
                action_name@,
                *notification,
                times,
            ),
{
    let pieces = parse_format_string(format_string);
    let ghost ps = pieces@.map_values(|p: FormatPiece| p@);
    let formats = time_formats(&pieces);
    let mut times: Vec<String> = Vec::new();
    let mut k: usize = 0;
    while k < formats.len()
        invariant
            0 <= k <= formats@.len(),
            times@.len() == k,
        decreases formats@.len() - k,
    {
        times.push(format_local_time(notification.time_secs, notification.time_nanos, formats[k].as_str()));
        k += 1;
    }
    proof {
        lemma_time_formats_len(ps);
    }
    let r = render_format(&pieces, action_name, notification, &times);
    proof {
        let w = times@.map_values(|t: String| t@);
        assert(w.len() == count_times(format_pieces(format_string@)));
        assert(r@ == render(format_pieces(format_string@), action_name@, *notification, w));
    }
    r
}

proof fn lemma_count_times_push(ps: Seq<SpecFormatPiece>, p: SpecFormatPiece)
    ensures
        count_times(ps.push(p)) == count_times(ps) + (if p is Time {
            1nat
        } else {
            0nat
        }),
    decreases ps.len(),
{
    if ps.len() > 0 {
        lemma_count_times_push(ps.drop_first(), p);
        assert(ps.push(p).drop_first() =~= ps.drop_first().push(p));
        assert(ps.push(p)[0] == ps[0]);
    } else {
        assert(ps.push(p).drop_first() =~= Seq::<SpecFormatPiece>::empty());
        assert(ps.push(p)[0] == p);
        assert(count_times(Seq::<SpecFormatPiece>::empty()) == 0);
    }
}

/// `format_string` with its fields filled in for `notification` and an empty action name.
pub fn format_notification_string(format_string: &str, notification: &Notification) -> (r: String)
    requires
        format_string_safe(format_string@),
    ensures
        exists|times: Seq<Seq<char>>|
            times.len() == count_times(format_pieces(format_string@)) && r@ == render(
                format_pieces(format_string@),
                Seq::empty(),
                *notification,
                times,
            ),
{
    let empty = string_from_chars(&Vec::new());
    format_action_notification_string(format_string, empty.as_str(), notification)
}


pub open spec fn http_prefix() -> Seq<char> {
    seq!['h', 't', 't', 'p', ':', '/', '/']
}

pub open spec fn https_prefix() -> Seq<char> {
    seq!['h', 't', 't', 'p', 's', ':', '/', '/']
}

/// `k` is the first position of `s` where `p` occurs.
pub open spec fn first_occurrence_at(s: Seq<char>, p: Seq<char>, k: int) -> bool {
    0 <= k <= s.len() && starts_with(s.skip(k), p) && forall|j: int|
        0 <= j < k ==> !starts_with(#[trigger] s.skip(j), p)
}

/// The first position of `s` where `p` occurs, if it occurs.
pub open spec fn first_occurrence(s: Seq<char>, p: Seq<char>) -> Option<int> {
    if exists|k: int| first_occurrence_at(s, p, k) {
        Some(choose|k: int| first_occurrence_at(s, p, k))
    } else {
        None
    }
}

/// Where the URL in `s` starts: the first place where `http://` or `https://` occurs.
pub open spec fn url_start(s: Seq<char>) -> Option<int> {
    match (first_occurrence(s, http_prefix()), first_occurrence(s, https_prefix())) {
        (Some(a), Some(b)) => Some(if a <= b { a } else { b }),
        (Some(a), None) => Some(a),
        (None, Some(b)) => Some(b),
        (None, None) => None,
    }
}

/// `e` is where the first word of `t` ends: at the first white space, or at the end.
pub open spec fn word_end_at(t: Seq<char>, e: int) -> bool {
    0 <= e <= t.len() && (forall|i: int| 0 <= i < e ==> !is_white_space(#[trigger] t[i])) && (e
        == t.len() || is_white_space(t[e]))
}

/// The URL in `s`: from where it starts up to the next white space.
pub open spec fn url_in(s: Seq<char>) -> Option<Seq<char>> {
    match url_start(s) {
        Some(k) => Some(s.skip(k).take(choose|e: int| word_end_at(s.skip(k), e))),
        None => None,
    }
}

/// The characters with the Unicode `White_Space` property, written out.
pub open spec fn unicode_white_space_chars() -> Set<char> {
    set![
        '\u{9}', '\u{a}', '\u{b}', '\u{c}', '\u{d}', ' ', '\u{85}', '\u{a0}', '\u{1680}',
        '\u{2000}', '\u{2001}', '\u{2002}', '\u{2003}', '\u{2004}', '\u{2005}', '\u{2006}',
        '\u{2007}', '\u{2008}', '\u{2009}', '\u{200a}', '\u{2028}', '\u{2029}', '\u{202f}',
        '\u{205f}', '\u{3000}',
    ]
}

proof fn lemma_white_space_chars(c: char)
    ensures
        is_white_space(c) <==> unicode_white_space_chars().contains(c),
{
    let u = c as u32;
    if is_white_space(c) {
        assert(0x2000 <= u <= 0x200a ==> u == 0x2000 || u == 0x2001 || u == 0x2002 || u == 0x2003
            || u == 0x2004 || u == 0x2005 || u == 0x2006 || u == 0x2007 || u == 0x2008 || u
            == 0x2009 || u == 0x200a);
        assert(0x09 <= u <= 0x0d ==> u == 9 || u == 10 || u == 11 || u == 12 || u == 13);
    }
}

proof fn lemma_word_end_exists(t: Seq<char>)
    ensures
        exists|e: int| word_end_at(t, e),
    decreases t.len(),
{
    if t.len() == 0 || is_white_space(t[0]) {
        assert(word_end_at(t, 0));
    } else {
        lemma_word_end_exists(t.drop_first());
        let e = choose|e: int| word_end_at(t.drop_first(), e);
        assert forall|i: int| 0 <= i < e + 1 implies !is_white_space(#[trigger] t[i]) by {
            if i > 0 {
                assert(t[i] == t.drop_first()[i - 1]);
            }
        }
        if e + 1 < t.len() {
            assert(t[e + 1] == t.drop_first()[e]);
        }
        assert(word_end_at(t, e + 1));
    }
}

/// The URL found in `s` starts with `http://` or `https://` at the first place where either
/// occurs, holds no white-space character (newlines, tabs, spaces and the rest of Unicode's
/// `White_Space`), and runs up to the first such character after its start or to the end
/// of `s`; a text with neither prefix has none.
pub proof fn url_is_one_word(s: Seq<char>)
    ensures
        url_in(s) matches Some(u) ==> exists|k: int|
            0 <= k && k + u.len() <= s.len() && u == #[trigger] s.subrange(k, k + u.len())
                && (starts_with(u, http_prefix()) || starts_with(u, https_prefix()))
                && (forall|j: int|
                0 <= j < k ==> !starts_with(#[trigger] s.skip(j), http_prefix()) && !starts_with(
                    s.skip(j),
                    https_prefix(),
                )) && (forall|i: int|
                0 <= i < u.len() ==> !unicode_white_space_chars().contains(#[trigger] u[i]))
                && (k + u.len() == s.len() || unicode_white_space_chars().contains(s[k + u.len()])),
        url_in(s) is None <==> (forall|j: int|
            0 <= j <= s.len() ==> !starts_with(#[trigger] s.skip(j), http_prefix())
                && !starts_with(s.skip(j), https_prefix())),
{
    if url_in(s) is Some {
        let k = lemma_url_parts(s);
        let u = url_in(s)->0;
        assert(u == s.subrange(k, k + u.len()));
    } else {
        assert forall|j: int|
            0 <= j <= s.len() implies !starts_with(#[trigger] s.skip(j), http_prefix()) && !starts_with(
            s.skip(j),
            https_prefix(),
        ) by {
            if starts_with(s.skip(j), http_prefix()) {
                lemma_some_first_occurrence(s, http_prefix(), j);
            }
            if starts_with(s.skip(j), https_prefix()) {
                lemma_some_first_occurrence(s, https_prefix(), j);
            }
        }
    }
}

/// Where the URL of `s` starts, with what holds of it there.
proof fn lemma_url_parts(s: Seq<char>) -> (k: int)
    requires
        url_in(s) is Some,
    ensures
        ({
            let u = url_in(s)->0;
            &&& 0 <= k && k + u.len() <= s.len() && u == s.subrange(k, k + u.len())
            &&& starts_with(u, http_prefix()) || starts_with(u, https_prefix())
            &&& forall|j: int|
                0 <= j < k ==> !starts_with(#[trigger] s.skip(j), http_prefix()) && !starts_with(
                    s.skip(j),
                    https_prefix(),
                )
            &&& forall|i: int| 0 <= i < u.len() ==> !unicode_white_space_chars().contains(#[trigger] u[i])
            &&& k + u.len() == s.len() || unicode_white_space_chars().contains(s[k + u.len()])
        }),
{
    let a = first_occurrence(s, http_prefix());
    let b = first_occurrence(s, https_prefix());
    let k = url_start(s)->0;
    let t = s.skip(k);
    lemma_word_end_exists(t);
    let e = choose|e: int| word_end_at(t, e);
    let u = t.take(e);
    assert(url_in(s) == Some(u));
    assert(u =~= s.subrange(k, k + u.len()));
    assert forall|i: int| 0 <= i < u.len() implies !unicode_white_space_chars().contains(
        #[trigger] u[i],
    ) by {
        lemma_white_space_chars(u[i]);
        assert(u[i] == t[i]);
    }
    if k + u.len() < s.len() {
        assert(s[k + u.len()] == t[e]);
        lemma_white_space_chars(s[k + u.len()]);
    }
    if a == Some(k) {
        assert(first_occurrence_at(s, http_prefix(), k));
    } else {
        assert(first_occurrence_at(s, https_prefix(), k));
    }
    let p = if a == Some(k) {
        http_prefix()
    } else {
        https_prefix()
    };
    assert(starts_with(t, p));
    assert forall|i: int| 0 <= i < p.len() implies !is_white_space(#[trigger] t[i]) by {
        assert(t[i] == t.take(p.len() as int)[i]);
    }
    if e < p.len() {
        assert(!is_white_space(t[e]));
        assert(e == t.len());
        assert(false);
    }
    assert(u.take(p.len() as int) =~= t.take(p.len() as int));
    assert forall|j: int|
        0 <= j < k implies !starts_with(#[trigger] s.skip(j), http_prefix()) && !starts_with(
        s.skip(j),
        https_prefix(),
    ) by {
        if a is Some {
            assert(first_occurrence_at(s, http_prefix(), a->0));
        } else if starts_with(s.skip(j), http_prefix()) {
            lemma_some_first_occurrence(s, http_prefix(), j);
        }
        if b is Some {
            assert(first_occurrence_at(s, https_prefix(), b->0));
        } else if starts_with(s.skip(j), https_prefix()) {
            lemma_some_first_occurrence(s, https_prefix(), j);
        }
    }
    k
}

/// Where `p` occurs at `j`, it has a first occurrence.
proof fn lemma_some_first_occurrence(s: Seq<char>, p: Seq<char>, j: int)
    requires
        0 <= j <= s.len(),
        starts_with(s.skip(j), p),
    ensures
        first_occurrence(s, p) is Some,
    decreases j,
{
    if exists|j2: int| 0 <= j2 < j && starts_with(#[trigger] s.skip(j2), p) {
        let j2 = choose|j2: int| 0 <= j2 < j && starts_with(#[trigger] s.skip(j2), p);
        lemma_some_first_occurrence(s, p, j2);
    } else {
        assert(first_occurrence_at(s, p, j));
    }
}

proof fn lemma_first_occurrence_unique(s: Seq<char>, p: Seq<char>, a: int, b: int)
    requires
        first_occurrence_at(s, p, a),
        first_occurrence_at(s, p, b),
    ensures
        a == b,
{
    if a < b {
        assert(!starts_with(s.skip(a), p));
    } else if b < a {
        assert(!starts_with(s.skip(b), p));
    }
}

fn find_first(v: &Vec<char>, p: &Vec<char>) -> (r: Option<usize>)
    ensures
        r matches Some(k) ==> first_occurrence_at(v@, p@, k as int),
        r is None ==> !exists|k: int| first_occurrence_at(v@, p@, k),
{
    let mut k: usize = 0;
    while k < v.len()
        invariant
            0 <= k <= v@.len(),
            forall|j: int| 0 <= j < k ==> !starts_with(#[trigger] v@.skip(j), p@),
        decreases v@.len() - k,
    {
        if has_prefix_at(v, k, p) {
            return Some(k);
        }
        k += 1;
    }
    if has_prefix_at(v, k, p) {
        return Some(k);
    }
    assert forall|j: int| !first_occurrence_at(v@, p@, j) by {
        if 0 <= j <= v@.len() {
            assert(!starts_with(v@.skip(j), p@));
        }
    }
    None
}

/// The URL in `string`, if there is one; see [`url_in`].
pub fn find_url(string: &str) -> (r: Option<String>)
    ensures
        r matches Some(u) ==> url_in(string@) == Some(u@),
        r is None ==> url_in(string@) is None,
{
    let v = chars_of(string);
    let http = vec!['h', 't', 't', 'p', ':', '/', '/'];
    let https = vec!['h', 't', 't', 'p', 's', ':', '/', '/'];
    let first_http = find_first(&v, &http);
    let first_https = find_first(&v, &https);
    proof {
        assert(http@ =~= http_prefix());
        assert(https@ =~= https_prefix());
        if let Some(k) = first_http {
            let c = choose|k: int| first_occurrence_at(v@, http_prefix(), k);
            lemma_first_occurrence_unique(v@, http_prefix(), k as int, c);
        }
        if let Some(k) = first_https {
            let c = choose|k: int| first_occurrence_at(v@, https_prefix(), k);
            lemma_first_occurrence_unique(v@, https_prefix(), k as int, c);
        }
    }
    let start = match (first_http, first_https) {
        (Some(a), Some(b)) => if a <= b { a } else { b },
        (Some(a), None) => a,
        (None, Some(b)) => b,
        (None, None) => {
            return None;
        },
    };
    assert(url_start(v@) == Some(start as int));
    let ghost t = v@.skip(start as int);
    let mut e: usize = start;
    let mut done = false;
    while e < v.len() && !done
        invariant
            start <= e <= v@.len(),
            t == v@.skip(start as int),
            forall|i: int| 0 <= i < e - start ==> !is_white_space(#[trigger] t[i]),
            done ==> e < v@.len() && is_white_space(t[e - start]),
        decreases v@.len() - e, if done { 0int } else { 1int },
    {
        assert(t[e - start] == v@[e as int]);
        if char_is_white_space(v[e]) {
            done = true;
        } else {
            e += 1;
        }
    }
    let ghost w = e - start;
    assert(word_end_at(t, w));
    proof {
        let c = choose|e: int| word_end_at(t, e);
        assert(c == w) by {
            if c < w {
                assert(!is_white_space(t[c]));
            } else if w < c {
                assert(!is_white_space(t[w]));
            }
        }
    }
    let mut out: Vec<char> = Vec::new();
    let mut m: usize = start;
    while m < e
        invariant
            start <= m <= e <= v@.len(),
            out@ == v@.subrange(start as int, m as int),
        decreases e - m,
    {
        out.push(v[m]);
        assert(v@.subrange(start as int, m + 1) =~= v@.subrange(start as int, m as int).push(
            v@[m as int],
        ));
        m += 1;
    }
    assert(out@ =~= t.take(w));
    Some(string_from_chars(&out))
}

} // verus!
