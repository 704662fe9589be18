//! The textual form of the documents this tool persists.
//!
//! The grammar of each document is written down as spec-level parsing
//! functions over character sequences, and every renderer proves that the
//! text it emits parses back to exactly the value it was given: persisting
//! and loading a document round-trips.

use vstd::prelude::*;
use crate::records::{ActorView, MovieView};
use vstd::string::StrSliceExecFns;

verus! {

/// JSON whitespace.
pub open spec fn is_ws(c: char) -> bool {
    c == ' ' || c == '\n' || c == '\t' || c == '\r'
}

/// The input with its leading whitespace removed.
pub open spec fn skip_ws(s: Seq<char>) -> Seq<char>
    decreases s.len(),
{
    if s.len() > 0 && is_ws(s[0]) {
        skip_ws(s.drop_first())
    } else {
        s
    }
}

proof fn lemma_skip_ws_prefix(p: Seq<char>, x: Seq<char>)
    requires
        forall|k: int| 0 <= k < p.len() ==> is_ws(#[trigger] p[k]),
    ensures
        skip_ws(p + x) == skip_ws(x),
    decreases p.len(),
{
    if p.len() == 0 {
        assert(p + x =~= x);
    } else {
        if (p + x).len() > 0 && is_ws((p + x)[0]) {
            assert((p + x).drop_first() =~= p.drop_first() + x);
            lemma_skip_ws_prefix(p.drop_first(), x);
        } else {
            assert(is_ws(p[0]));
            assert((p + x)[0] == p[0]);
        }
    }
}

/// The escape sequence that renders one character inside a string literal.
pub open spec fn esc_char(c: char) -> Seq<char> {
    if c == '"' {
        seq!['\\', '"']
    } else if c == '\\' {
        seq!['\\', '\\']
    } else if c == '\n' {
        seq!['\\', 'n']
    } else if c == '\r' {
        seq!['\\', 'r']
    } else if c == '\t' {
        seq!['\\', 't']
    } else {
        seq![c]
    }
}

/// The escaped body of a string literal.
pub open spec fn esc_str(v: Seq<char>) -> Seq<char>
    decreases v.len(),
{
    if v.len() == 0 {
        Seq::empty()
    } else {
        esc_char(v[0]) + esc_str(v.drop_first())
    }
}

/// A whole rendered string literal, quotes included.
pub open spec fn render_string(v: Seq<char>) -> Seq<char> {
    seq!['"'] + esc_str(v) + seq!['"']
}

/// The character an escape code stands for.
pub open spec fn unescape(c: char) -> Option<char> {
    if c == '"' {
        Some('"')
    } else if c == '\\' {
        Some('\\')
    } else if c == '/' {
        Some('/')
    } else if c == 'n' {
        Some('\n')
    } else if c == 'r' {
        Some('\r')
    } else if c == 't' {
        Some('\t')
    } else {
        None
    }
}

/// Parses the body of a string literal, after its opening quote: the
/// literal's characters and the input left after the closing quote.
pub open spec fn parse_string_rest(s: Seq<char>) -> Option<(Seq<char>, Seq<char>)>
    decreases s.len(),
{
    if s.len() == 0 {
        None
    } else if s[0] == '"' {
        Some((Seq::empty(), s.drop_first()))
    } else if s[0] == '\\' {
        if s.len() < 2 {
            None
        } else {
            match unescape(s[1]) {
                Some(c) => match parse_string_rest(s.skip(2)) {
                    Some(p) => Some((seq![c] + p.0, p.1)),
                    None => None,
                },
                None => None,
            }
        }
    } else {
        match parse_string_rest(s.drop_first()) {
            Some(p) => Some((seq![s[0]] + p.0, p.1)),
            None => None,
        }
    }
}

/// Parses one string literal, leading whitespace allowed.
pub open spec fn parse_string(s: Seq<char>) -> Option<(Seq<char>, Seq<char>)> {
    let t = skip_ws(s);
    if t.len() > 0 && t[0] == '"' {
        parse_string_rest(t.drop_first())
    } else {
        None
    }
}

proof fn lemma_parse_string_rest_len(s: Seq<char>)
    ensures
        match parse_string_rest(s) {
            Some(p) => p.1.len() < s.len(),
            None => true,
        },
    decreases s.len(),
{
    if s.len() == 0 {
    } else if s[0] == '"' {
    } else if s[0] == '\\' {
        if s.len() >= 2 {
            lemma_parse_string_rest_len(s.skip(2));
        }
    } else {
        lemma_parse_string_rest_len(s.drop_first());
    }
}

proof fn lemma_skip_ws_len(s: Seq<char>)
    ensures
        skip_ws(s).len() <= s.len(),
    decreases s.len(),
{
    if s.len() > 0 && is_ws(s[0]) {
        lemma_skip_ws_len(s.drop_first());
    }
}

proof fn lemma_parse_string_len(s: Seq<char>)
    ensures
        match parse_string(s) {
            Some(p) => p.1.len() < s.len(),
            None => true,
        },
{
    lemma_skip_ws_len(s);
    let t = skip_ws(s);
    if t.len() > 0 && t[0] == '"' {
        lemma_parse_string_rest_len(t.drop_first());
    }
}

proof fn lemma_parse_rest_of_esc(v: Seq<char>, rest: Seq<char>)
    ensures
        parse_string_rest(esc_str(v) + (seq!['"'] + rest)) == Some((v, rest)),
    decreases v.len(),
{
    let input = esc_str(v) + (seq!['"'] + rest);
    if v.len() == 0 {
        assert(input =~= seq!['"'] + rest);
        assert(input[0] == '"');
        assert(input.drop_first() =~= rest);
        assert(parse_string_rest(input) == Some((Seq::<char>::empty(), rest)));
        assert(Seq::<char>::empty() =~= v);
    } else {
        let c = v[0];
        let tail = v.drop_first();
        assert(esc_str(v) == esc_char(c) + esc_str(tail));
        lemma_parse_rest_of_esc(tail, rest);
        let sub = esc_str(tail) + (seq!['"'] + rest);
        if c == '"' || c == '\\' || c == '\n' || c == '\r' || c == '\t' {
            assert(esc_char(c).len() == 2);
            assert(input[0] == '\\');
            assert(input.len() >= 2);
            assert(input[1] == esc_char(c)[1]);
            assert(unescape(esc_char(c)[1]) == Some(c));
            assert(input.skip(2) =~= sub);
            assert(parse_string_rest(input) == Some((seq![c] + v.drop_first(), rest)));
            assert(seq![c] + v.drop_first() =~= v);
        } else {
            assert(esc_char(c) =~= seq![c]);
            assert(input[0] == c);
            assert(c != '"' && c != '\\');
            assert(input.drop_first() =~= sub);
            assert(parse_string_rest(input) == Some((seq![c] + v.drop_first(), rest)));
            assert(seq![c] + v.drop_first() =~= v);
        }
    }
}

/// A rendered string literal parses back to exactly the characters it was
/// rendered from, consuming nothing of what follows it.
proof fn lemma_parse_string_of_render(v: Seq<char>, rest: Seq<char>)
    ensures
        parse_string(render_string(v) + rest) == Some((v, rest)),
{
    let input = render_string(v) + rest;
    assert(input[0] == '"');
    assert(!is_ws('"'));
    assert(skip_ws(input) == input);
    lemma_parse_rest_of_esc(v, rest);
    assert(input.drop_first() =~= esc_str(v) + (seq!['"'] + rest));
}

/// The newline-and-indent the renderers put before a list item.
pub open spec fn nl2() -> Seq<char> {
    seq!['\n', ' ', ' ']
}

/// The items of a rendered string list after its first: a comma, a break,
/// and the next literal, repeated.
pub open spec fn tail_items_text(l: Seq<Seq<char>>) -> Seq<char>
    decreases l.len(),
{
    if l.len() == 0 {
        Seq::empty()
    } else {
        seq![','] + nl2() + render_string(l[0]) + tail_items_text(l.drop_first())
    }
}

/// A whole rendered string-list document: a JSON array of string literals,
/// one per line.
pub open spec fn render_file_list_text(l: Seq<Seq<char>>) -> Seq<char> {
    if l.len() == 0 {
        seq!['[', '\n', ']']
    } else {
        seq!['['] + nl2() + render_string(l[0]) + tail_items_text(l.drop_first()) + seq![
            '\n',
            ']',
        ]
    }
}

/// Parses the items of a string list after its first: either the closing
/// bracket, or a comma and another literal, repeated.
pub open spec fn parse_more_strings(s: Seq<char>) -> Option<(Seq<Seq<char>>, Seq<char>)>
    decreases s.len(),
    via parse_more_strings_decreases
{
    let t = skip_ws(s);
    if t.len() == 0 {
        None
    } else if t[0] == ']' {
        Some((Seq::empty(), t.drop_first()))
    } else if t[0] == ',' {
        match parse_string(t.drop_first()) {
            Some(p) => match parse_more_strings(p.1) {
                Some(q) => Some((seq![p.0] + q.0, q.1)),
                None => None,
            },
            None => None,
        }
    } else {
        None
    }
}

#[via_fn]
proof fn parse_more_strings_decreases(s: Seq<char>) {
    lemma_skip_ws_len(s);
    let t = skip_ws(s);
    if t.len() > 0 && t[0] == ',' {
        lemma_parse_string_len(t.drop_first());
    }
}

/// Parses one string list: a bracketed, comma-separated sequence of string
/// literals, whitespace allowed around the tokens.
pub open spec fn parse_string_list(s: Seq<char>) -> Option<(Seq<Seq<char>>, Seq<char>)> {
    let t = skip_ws(s);
    if t.len() > 0 && t[0] == '[' {
        let u = skip_ws(t.drop_first());
        if u.len() == 0 {
            None
        } else if u[0] == ']' {
            Some((Seq::empty(), u.drop_first()))
        } else {
            match parse_string(u) {
                Some(p) => match parse_more_strings(p.1) {
                    Some(q) => Some((seq![p.0] + q.0, q.1)),
                    None => None,
                },
                None => None,
            }
        }
    } else {
        None
    }
}

/// Parses a whole string-list document: one string list and nothing after
/// it but whitespace.
pub open spec fn parse_file_list(s: Seq<char>) -> Option<Seq<Seq<char>>> {
    match parse_string_list(s) {
        Some(p) => if skip_ws(p.1).len() == 0 {
            Some(p.0)
        } else {
            None
        },
        None => None,
    }
}

proof fn lemma_parse_string_same_after_ws(a: Seq<char>, b: Seq<char>)
    requires
        skip_ws(a) == skip_ws(b),
    ensures
        parse_string(a) == parse_string(b),
{
    lemma_skip_ws_idempotent(a);
}

proof fn lemma_skip_ws_idempotent(s: Seq<char>)
    ensures
        skip_ws(skip_ws(s)) == skip_ws(s),
    decreases s.len(),
{
    if s.len() > 0 && is_ws(s[0]) {
        lemma_skip_ws_idempotent(s.drop_first());
    }
}

proof fn lemma_parse_more_of_tail(l: Seq<Seq<char>>, rest: Seq<char>)
    ensures
        parse_more_strings(tail_items_text(l) + (seq!['\n', ']'] + rest)) == Some((l, rest)),
    decreases l.len(),
{
    let input = tail_items_text(l) + (seq!['\n', ']'] + rest);
    if l.len() == 0 {
        assert(input =~= seq!['\n'] + (seq![']'] + rest));
        lemma_skip_ws_prefix(seq!['\n'], seq![']'] + rest);
        let t = skip_ws(input);
        assert(!is_ws(']'));
        assert(t == seq![']'] + rest);
        assert(t[0] == ']');
        assert(t.drop_first() =~= rest);
        assert(parse_more_strings(input) == Some((Seq::<Seq<char>>::empty(), rest)));
        assert(Seq::<Seq<char>>::empty() =~= l);
    } else {
        let first = l[0];
        let tail = l.drop_first();
        let sub = tail_items_text(tail) + (seq!['\n', ']'] + rest);
        assert(tail_items_text(l) == seq![','] + nl2() + render_string(first) + tail_items_text(
            tail,
        ));
        assert(input[0] == ',');
        assert(!is_ws(','));
        assert(skip_ws(input) == input);
        let after_comma = input.drop_first();
        assert(after_comma =~= nl2() + (render_string(first) + sub));
        assert(forall|k: int| 0 <= k < nl2().len() ==> is_ws(#[trigger] nl2()[k]));
        lemma_skip_ws_prefix(nl2(), render_string(first) + sub);
        lemma_parse_string_of_render(first, sub);
        assert((render_string(first) + sub)[0] == '"');
        assert(skip_ws(render_string(first) + sub) == render_string(first) + sub);
        lemma_parse_string_same_after_ws(after_comma, render_string(first) + sub);
        assert(parse_string(after_comma) == Some((first, sub)));
        lemma_parse_more_of_tail(tail, rest);
        assert(parse_more_strings(input) == Some((seq![first] + tail, rest)));
        assert(seq![first] + tail =~= l);
    }
}

/// A rendered string-list document parses back to exactly the list it was
/// rendered from.
proof fn lemma_parse_list_of_render(l: Seq<Seq<char>>, rest: Seq<char>)
    ensures
        parse_string_list(render_file_list_text(l) + rest) == Some((l, rest)),
{
    let input = render_file_list_text(l) + rest;
    assert(input[0] == '[');
    assert(!is_ws('['));
    assert(skip_ws(input) == input);
    if l.len() == 0 {
        assert(input.drop_first() =~= seq!['\n'] + (seq![']'] + rest));
        lemma_skip_ws_prefix(seq!['\n'], seq![']'] + rest);
        let u = skip_ws(input.drop_first());
        assert(!is_ws(']'));
        assert(u == seq![']'] + rest);
        assert(u[0] == ']');
        assert(u.drop_first() =~= rest);
        assert(parse_string_list(input) == Some((Seq::<Seq<char>>::empty(), rest)));
        assert(Seq::<Seq<char>>::empty() =~= l);
    } else {
        let first = l[0];
        let tail = l.drop_first();
        let sub = tail_items_text(tail) + (seq!['\n', ']'] + rest);
        assert(input.drop_first() =~= nl2() + (render_string(first) + sub));
        assert(forall|k: int| 0 <= k < nl2().len() ==> is_ws(#[trigger] nl2()[k]));
        lemma_skip_ws_prefix(nl2(), render_string(first) + sub);
        let u = skip_ws(input.drop_first());
        assert((render_string(first) + sub)[0] == '"');
        assert(!is_ws('"'));
        assert(u == render_string(first) + sub);
        assert(skip_ws(u) == u);
        lemma_parse_string_of_render(first, sub);
        lemma_parse_string_same_after_ws(u, render_string(first) + sub);
        assert(parse_string(u) == Some((first, sub)));
        lemma_parse_more_of_tail(tail, rest);
        assert(parse_string_list(input) == Some((seq![first] + tail, rest)));
        assert(seq![first] + tail =~= l);
    }
}

/// A rendered string-list document, with nothing after it, loads back to
/// exactly the list it was rendered from.
pub proof fn lemma_file_list_round_trip(l: Seq<Seq<char>>)
    ensures
        parse_file_list(render_file_list_text(l)) == Some(l),
{
    lemma_parse_list_of_render(l, Seq::empty());
    assert(render_file_list_text(l) + Seq::<char>::empty() =~= render_file_list_text(l));
}

/// Relies on String's FromIterator over characters: the collected string
/// holds exactly the iterated characters, in order.
#[verifier::external_body]
fn chars_to_string(chars: Vec<char>) -> (s: String)
    ensures
        s@ == chars@,
{
    String::from_iter(chars)
}

proof fn lemma_esc_str_snoc(v: Seq<char>, c: char)
    ensures
        esc_str(v.push(c)) == esc_str(v) + esc_char(c),
    decreases v.len(),
{
    if v.len() == 0 {
        assert(v.push(c)[0] == c);
        assert(v.push(c).drop_first() =~= Seq::<char>::empty());
        assert(esc_str(Seq::<char>::empty()) == Seq::<char>::empty());
        assert(esc_str(v.push(c)) == esc_char(c) + esc_str(Seq::<char>::empty()));
        assert(esc_char(c) + Seq::<char>::empty() =~= esc_char(c));
        assert(esc_str(v) + esc_char(c) =~= esc_char(c));
    } else {
        assert(v.push(c)[0] == v[0]);
        assert(v.push(c).drop_first() =~= v.drop_first().push(c));
        lemma_esc_str_snoc(v.drop_first(), c);
        assert(esc_char(v[0]) + (esc_str(v.drop_first()) + esc_char(c)) =~= (esc_char(v[0])
            + esc_str(v.drop_first())) + esc_char(c));
    }
}

fn push_escaped(out: &mut Vec<char>, c: char)
    ensures
        final(out)@ == old(out)@ + esc_char(c),
{
    if c == '"' {
        out.push('\\');
        out.push('"');
    } else if c == '\\' {
        out.push('\\');
        out.push('\\');
    } else if c == '\n' {
        out.push('\\');
        out.push('n');
    } else if c == '\r' {
        out.push('\\');
        out.push('r');
    } else if c == '\t' {
        out.push('\\');
        out.push('t');
    } else {
        out.push(c);
    }
    assert(out@ =~= old(out)@ + esc_char(c));
}

/// Appends one rendered string literal, quotes and escapes included.
fn push_string_literal(out: &mut Vec<char>, v: &String)
    ensures
        final(out)@ == old(out)@ + render_string(v@),
{
    out.push('"');
    let ghost base = out@;
    let s = v.as_str();
    let n = s.unicode_len();
    for i in 0..n
        invariant
            n == s@.len(),
            s@ == v@,
            out@ == base + esc_str(v@.take(i as int)),
    {
        let c = s.get_char(i);
        push_escaped(out, c);
        proof {
            assert(v@.take(i + 1) =~= v@.take(i as int).push(v@[i as int]));
            lemma_esc_str_snoc(v@.take(i as int), v@[i as int]);
            assert(base + esc_str(v@.take(i as int)) + esc_char(v@[i as int]) =~= base + esc_str(
                v@.take(i + 1),
            ));
        }
    }
    out.push('"');
    proof {
        assert(v@.take(n as int) =~= v@);
        assert(out@ =~= old(out)@ + render_string(v@));
    }
}

proof fn lemma_tail_items_snoc(l: Seq<Seq<char>>, x: Seq<char>)
    ensures
        tail_items_text(l.push(x)) == tail_items_text(l) + (seq![','] + nl2() + render_string(x)),
    decreases l.len(),
{
    if l.len() == 0 {
        assert(l.push(x)[0] == x);
        assert(l.push(x).drop_first() =~= Seq::<Seq<char>>::empty());
        assert(tail_items_text(Seq::<Seq<char>>::empty()) == Seq::<char>::empty());
        assert(tail_items_text(l.push(x)) == seq![','] + nl2() + render_string(x)
            + tail_items_text(Seq::<Seq<char>>::empty()));
        assert(tail_items_text(l.push(x)) =~= tail_items_text(l) + (seq![','] + nl2()
            + render_string(x)));
    } else {
        assert(l.push(x)[0] == l[0]);
        assert(l.push(x).drop_first() =~= l.drop_first().push(x));
        lemma_tail_items_snoc(l.drop_first(), x);
        assert(seq![','] + nl2() + render_string(l[0]) + (tail_items_text(l.drop_first()) + (
        seq![','] + nl2() + render_string(x))) =~= (seq![','] + nl2() + render_string(l[0])
            + tail_items_text(l.drop_first())) + (seq![','] + nl2() + render_string(x)));
    }
}

/// Renders a list of file names as the persisted report document, and the
/// text provably loads back to exactly that list.
pub fn render_file_list(files: &Vec<String>) -> (text: String)
    ensures
        text@ == render_file_list_text(files.deep_view()),
        parse_file_list(text@) == Some(files.deep_view()),
{
    let ghost fv = files.deep_view();
    let mut out: Vec<char> = Vec::new();
    out.push('[');
    if files.len() == 0 {
        out.push('\n');
        out.push(']');
        assert(out@ =~= render_file_list_text(fv));
    } else {
        out.push('\n');
        out.push(' ');
        out.push(' ');
        push_string_literal(&mut out, &files[0]);
        let ghost head = seq!['['] + nl2() + render_string(fv[0]);
        assert(out@ =~= head + tail_items_text(fv.take(1).drop_first()));
        let n = files.len();
        for i in 1..n
            invariant
                n == files.len(),
                1 <= i <= n,
                fv == files.deep_view(),
                head == seq!['['] + nl2() + render_string(fv[0]),
                out@ == head + tail_items_text(fv.take(i as int).drop_first()),
        {
            let ghost pre = fv.take(i as int).drop_first();
            out.push(',');
            out.push('\n');
            out.push(' ');
            out.push(' ');
            push_string_literal(&mut out, &files[i]);
            proof {
                lemma_tail_items_snoc(pre, fv[i as int]);
                assert(fv.take(i + 1).drop_first() =~= pre.push(fv[i as int]));
                assert(out@ =~= head + tail_items_text(fv.take(i + 1).drop_first()));
            }
        }
        proof {
            assert(fv.take(n as int) =~= fv);
        }
        out.push('\n');
        out.push(']');
        assert(out@ =~= render_file_list_text(fv));
    }
    let text = chars_to_string(out);
    proof {
        lemma_file_list_round_trip(fv);
    }
    text
}

/// Decimal digits.
pub open spec fn is_digit(c: char) -> bool {
    c == '0' || c == '1' || c == '2' || c == '3' || c == '4' || c == '5' || c == '6' || c == '7'
        || c == '8' || c == '9'
}

/// The value of one decimal digit.
pub open spec fn digit_val(c: char) -> nat {
    if c == '0' {
        0
    } else if c == '1' {
        1
    } else if c == '2' {
        2
    } else if c == '3' {
        3
    } else if c == '4' {
        4
    } else if c == '5' {
        5
    } else if c == '6' {
        6
    } else if c == '7' {
        7
    } else if c == '8' {
        8
    } else {
        9
    }
}

/// The character of one decimal digit.
pub open spec fn digit_char(d: nat) -> char {
    if d == 0 {
        '0'
    } else if d == 1 {
        '1'
    } else if d == 2 {
        '2'
    } else if d == 3 {
        '3'
    } else if d == 4 {
        '4'
    } else if d == 5 {
        '5'
    } else if d == 6 {
        '6'
    } else if d == 7 {
        '7'
    } else if d == 8 {
        '8'
    } else {
        '9'
    }
}

/// The decimal rendering of a number, most significant digit first.
pub open spec fn dec_digits(n: nat) -> Seq<char>
    decreases n,
{
    if n < 10 {
        seq![digit_char(n)]
    } else {
        dec_digits(n / 10).push(digit_char(n % 10))
    }
}

/// Consumes a run of decimal digits, folding them onto an accumulator.
pub open spec fn parse_digits(s: Seq<char>, acc: nat) -> (nat, Seq<char>)
    decreases s.len(),
{
    if s.len() > 0 && is_digit(s[0]) {
        parse_digits(s.drop_first(), acc * 10 + digit_val(s[0]))
    } else {
        (acc, s)
    }
}

/// Parses one unsigned number, leading whitespace allowed; a value beyond
/// the 64-bit range is refused.
pub open spec fn parse_u64(s: Seq<char>) -> Option<(u64, Seq<char>)> {
    let t = skip_ws(s);
    if t.len() > 0 && is_digit(t[0]) {
        let p = parse_digits(t, 0);
        if p.0 <= u64::MAX {
            Some((p.0 as u64, p.1))
        } else {
            None
        }
    } else {
        None
    }
}

spec fn num_digits(n: nat) -> nat
    decreases n,
{
    if n < 10 {
        1
    } else {
        num_digits(n / 10) + 1
    }
}

spec fn ten_pow(k: nat) -> nat
    decreases k,
{
    if k == 0 {
        1
    } else {
        10 * ten_pow((k - 1) as nat)
    }
}

proof fn lemma_dec_digits_first_digit(n: nat)
    ensures
        dec_digits(n).len() > 0,
        is_digit(dec_digits(n)[0]),
    decreases n,
{
    if n >= 10 {
        lemma_dec_digits_first_digit(n / 10);
    }
}

proof fn lemma_parse_digits_of_dec(n: nat, acc: nat, rest: Seq<char>)
    ensures
        parse_digits(dec_digits(n) + rest, acc) == parse_digits(
            rest,
            acc * ten_pow(num_digits(n)) + n,
        ),
    decreases n,
{
    if n < 10 {
        let input = dec_digits(n) + rest;
        assert(input[0] == digit_char(n));
        assert(is_digit(digit_char(n)));
        assert(digit_val(digit_char(n)) == n);
        assert(input.drop_first() =~= rest);
        assert(ten_pow(0) == 1);
        assert(ten_pow(1) == 10);
        assert(acc * 10 + n == acc * ten_pow(num_digits(n)) + n);
    } else {
        let d = n % 10;
        let hi = n / 10;
        vstd::arithmetic::div_mod::lemma_fundamental_div_mod(n as int, 10);
        assert(n == 10 * hi + d);
        assert(dec_digits(n) == dec_digits(hi).push(digit_char(d)));
        assert(dec_digits(n) + rest =~= dec_digits(hi) + (seq![digit_char(d)] + rest));
        lemma_parse_digits_of_dec(hi, acc, seq![digit_char(d)] + rest);
        let a2 = acc * ten_pow(num_digits(hi)) + hi;
        let step = seq![digit_char(d)] + rest;
        assert(step[0] == digit_char(d));
        assert(is_digit(digit_char(d)));
        assert(digit_val(digit_char(d)) == d);
        assert(step.drop_first() =~= rest);
        assert(parse_digits(step, a2) == parse_digits(rest, a2 * 10 + d));
        assert(num_digits(n) == num_digits(hi) + 1);
        assert(ten_pow(num_digits(n)) == 10 * ten_pow(num_digits(hi)));
        assert(a2 * 10 + d == acc * (10 * ten_pow(num_digits(hi))) + (10 * hi + d))
            by (nonlinear_arith)
            requires
                a2 == acc * ten_pow(num_digits(hi)) + hi,
        ;
    }
}

/// A rendered number parses back to exactly its value, stopping before
/// whatever non-digit follows it.
proof fn lemma_parse_u64_of_dec(n: u64, rest: Seq<char>)
    requires
        rest.len() == 0 || !is_digit(rest[0]),
    ensures
        parse_u64(dec_digits(n as nat) + rest) == Some((n, rest)),
{
    let input = dec_digits(n as nat) + rest;
    lemma_dec_digits_first_digit(n as nat);
    assert(input[0] == dec_digits(n as nat)[0]);
    assert(!is_ws(input[0]));
    assert(skip_ws(input) == input);
    lemma_parse_digits_of_dec(n as nat, 0, rest);
    assert(0 * ten_pow(num_digits(n as nat)) + n as nat == n as nat);
    assert(parse_digits(rest, n as nat) == (n as nat, rest));
}

/// The literal of an absent optional value.
pub open spec fn null_text() -> Seq<char> {
    seq!['n', 'u', 'l', 'l']
}

/// The rendering of an optional string: a string literal or `null`.
pub open spec fn render_opt_string(o: Option<Seq<char>>) -> Seq<char> {
    match o {
        Some(v) => render_string(v),
        None => null_text(),
    }
}

/// Parses an optional string: `null` or a string literal.
pub open spec fn parse_opt_string(s: Seq<char>) -> Option<(Option<Seq<char>>, Seq<char>)> {
    let t = skip_ws(s);
    if t.len() >= 4 && t.take(4) == null_text() {
        Some((None, t.skip(4)))
    } else {
        match parse_string(t) {
            Some(p) => Some((Some(p.0), p.1)),
            None => None,
        }
    }
}

/// A rendered optional string parses back to exactly the value it was
/// rendered from.
proof fn lemma_parse_opt_string_of_render(o: Option<Seq<char>>, rest: Seq<char>)
    ensures
        parse_opt_string(render_opt_string(o) + rest) == Some((o, rest)),
{
    match o {
        None => {
            let input = null_text() + rest;
            assert(input[0] == 'n');
            assert(!is_ws('n'));
            assert(skip_ws(input) == input);
            assert(input.len() >= 4);
            assert(input.take(4) =~= null_text());
            assert(input.skip(4) =~= rest);
        },
        Some(v) => {
            let input = render_string(v) + rest;
            assert(input[0] == '"');
            assert(!is_ws('"'));
            assert(skip_ws(input) == input);
            if input.len() >= 4 {
                assert(input.take(4)[0] == '"');
                assert(null_text()[0] == 'n');
                assert(input.take(4) != null_text());
            }
            lemma_parse_string_of_render(v, rest);
            lemma_skip_ws_idempotent(input);
        },
    }
}

/// The inline rendering of a string list after its first item.
pub open spec fn tail_genres_text(l: Seq<Seq<char>>) -> Seq<char>
    decreases l.len(),
{
    if l.len() == 0 {
        Seq::empty()
    } else {
        seq![','] + render_string(l[0]) + tail_genres_text(l.drop_first())
    }
}

/// The inline rendering of a whole string list, as it stands inside a
/// record.
pub open spec fn render_genres_text(l: Seq<Seq<char>>) -> Seq<char> {
    if l.len() == 0 {
        seq!['[', ']']
    } else {
        seq!['['] + render_string(l[0]) + tail_genres_text(l.drop_first()) + seq![']']
    }
}

proof fn lemma_parse_more_of_genres_tail(l: Seq<Seq<char>>, rest: Seq<char>)
    ensures
        parse_more_strings(tail_genres_text(l) + (seq![']'] + rest)) == Some((l, rest)),
    decreases l.len(),
{
    let input = tail_genres_text(l) + (seq![']'] + rest);
    if l.len() == 0 {
        assert(input =~= seq![']'] + rest);
        assert(input[0] == ']');
        assert(!is_ws(']'));
        assert(skip_ws(input) == input);
        assert(input.drop_first() =~= rest);
        assert(parse_more_strings(input) == Some((Seq::<Seq<char>>::empty(), rest)));
        assert(Seq::<Seq<char>>::empty() =~= l);
    } else {
        let first = l[0];
        let tail = l.drop_first();
        let sub = tail_genres_text(tail) + (seq![']'] + rest);
        assert(input[0] == ',');
        assert(!is_ws(','));
        assert(skip_ws(input) == input);
        assert(input.drop_first() =~= render_string(first) + sub);
        lemma_parse_string_of_render(first, sub);
        assert(parse_string(input.drop_first()) == Some((first, sub)));
        lemma_parse_more_of_genres_tail(tail, rest);
        assert(parse_more_strings(input) == Some((seq![first] + tail, rest)));
        assert(seq![first] + tail =~= l);
    }
}

/// An inline-rendered string list parses back to exactly the list it was
/// rendered from.
proof fn lemma_parse_genres_of_render(l: Seq<Seq<char>>, rest: Seq<char>)
    ensures
        parse_string_list(render_genres_text(l) + rest) == Some((l, rest)),
{
    let input = render_genres_text(l) + rest;
    assert(input[0] == '[');
    assert(!is_ws('['));
    assert(skip_ws(input) == input);
    if l.len() == 0 {
        assert(input.drop_first() =~= seq![']'] + rest);
        assert((seq![']'] + rest)[0] == ']');
        assert(!is_ws(']'));
        let u = skip_ws(input.drop_first());
        assert(u == seq![']'] + rest);
        assert(u.drop_first() =~= rest);
        assert(parse_string_list(input) == Some((Seq::<Seq<char>>::empty(), rest)));
        assert(Seq::<Seq<char>>::empty() =~= l);
    } else {
        let first = l[0];
        let tail = l.drop_first();
        let sub = tail_genres_text(tail) + (seq![']'] + rest);
        assert(input.drop_first() =~= render_string(first) + sub);
        assert((render_string(first) + sub)[0] == '"');
        assert(!is_ws('"'));
        let u = skip_ws(input.drop_first());
        assert(u == render_string(first) + sub);
        lemma_parse_string_of_render(first, sub);
        lemma_skip_ws_idempotent(input.drop_first());
        lemma_parse_string_same_after_ws(u, render_string(first) + sub);
        assert(parse_string(u) == Some((first, sub)));
        lemma_parse_more_of_genres_tail(tail, rest);
        assert(parse_string_list(input) == Some((seq![first] + tail, rest)));
        assert(seq![first] + tail =~= l);
    }
}

/// Matches an exact token at the head of the input, no whitespace allowed.
pub open spec fn parse_exact(s: Seq<char>, k: Seq<char>) -> Option<Seq<char>> {
    if s.len() >= k.len() && s.take(k.len() as int) == k {
        Some(s.skip(k.len() as int))
    } else {
        None
    }
}

proof fn lemma_assoc(a: Seq<char>, b: Seq<char>, c: Seq<char>)
    ensures
        (a + b) + c == a + (b + c),
{
    assert((a + b) + c =~= a + (b + c));
}

proof fn lemma_parse_exact_of(k: Seq<char>, rest: Seq<char>)
    ensures
        parse_exact(k + rest, k) == Some(rest),
{
    assert((k + rest).take(k.len() as int) =~= k);
    assert((k + rest).skip(k.len() as int) =~= rest);
}

proof fn lemma_parse_exact_len(s: Seq<char>, k: Seq<char>)
    ensures
        match parse_exact(s, k) {
            Some(r) => r.len() <= s.len(),
            None => true,
        },
{
}

proof fn lemma_parse_u64_len(s: Seq<char>)
    ensures
        match parse_u64(s) {
            Some(p) => p.1.len() < s.len(),
            None => true,
        },
{
    lemma_skip_ws_len(s);
    let t = skip_ws(s);
    if t.len() > 0 && is_digit(t[0]) {
        lemma_parse_digits_len(t, 0);
    }
}

proof fn lemma_parse_digits_len(s: Seq<char>, acc: nat)
    ensures
        parse_digits(s, acc).1.len() <= s.len(),
        s.len() > 0 && is_digit(s[0]) ==> parse_digits(s, acc).1.len() < s.len(),
    decreases s.len(),
{
    if s.len() > 0 && is_digit(s[0]) {
        lemma_parse_digits_len(s.drop_first(), acc * 10 + digit_val(s[0]));
    }
}

proof fn lemma_parse_opt_string_len(s: Seq<char>)
    ensures
        match parse_opt_string(s) {
            Some(p) => p.1.len() < s.len(),
            None => true,
        },
{
    lemma_skip_ws_len(s);
    let t = skip_ws(s);
    if t.len() >= 4 && t.take(4) == null_text() {
    } else {
        lemma_parse_string_len(t);
        lemma_skip_ws_idempotent(s);
    }
}

/// The keys of the record schemas, colon included, as they are persisted.
pub open spec fn key_id() -> Seq<char> {
    "\"id\":"@
}

pub open spec fn key_name() -> Seq<char> {
    "\"name\":"@
}

pub open spec fn key_cast_id() -> Seq<char> {
    "\"cast_id\":"@
}

pub open spec fn key_credit_id() -> Seq<char> {
    "\"credit_id\":"@
}

pub open spec fn key_character() -> Seq<char> {
    "\"character\":"@
}

pub open spec fn key_profile_path() -> Seq<char> {
    "\"profile_path\":"@
}

/// One string-valued field: its key, the literal, and the separating comma
/// unless it is the record's last field.
pub open spec fn render_str_field(key: Seq<char>, v: Seq<char>, comma: bool) -> Seq<char> {
    key + render_string(v) + (if comma {
        seq![',']
    } else {
        Seq::<char>::empty()
    })
}

/// Parses one string-valued field.
pub open spec fn parse_str_field(s: Seq<char>, key: Seq<char>, comma: bool) -> Option<
    (Seq<char>, Seq<char>),
> {
    match parse_exact(s, key) {
        Some(r) => match parse_string(r) {
            Some(p) => if comma {
                match parse_exact(p.1, seq![',']) {
                    Some(r2) => Some((p.0, r2)),
                    None => None,
                }
            } else {
                Some((p.0, p.1))
            },
            None => None,
        },
        None => None,
    }
}

/// One number-valued field.
pub open spec fn render_u64_field(key: Seq<char>, n: nat, comma: bool) -> Seq<char> {
    key + dec_digits(n) + (if comma {
        seq![',']
    } else {
        Seq::<char>::empty()
    })
}

/// Parses one number-valued field.
pub open spec fn parse_u64_field(s: Seq<char>, key: Seq<char>, comma: bool) -> Option<
    (u64, Seq<char>),
> {
    match parse_exact(s, key) {
        Some(r) => match parse_u64(r) {
            Some(p) => if comma {
                match parse_exact(p.1, seq![',']) {
                    Some(r2) => Some((p.0, r2)),
                    None => None,
                }
            } else {
                Some((p.0, p.1))
            },
            None => None,
        },
        None => None,
    }
}

/// One optional-string field.
pub open spec fn render_opt_field(key: Seq<char>, o: Option<Seq<char>>, comma: bool) -> Seq<
    char,
> {
    key + render_opt_string(o) + (if comma {
        seq![',']
    } else {
        Seq::<char>::empty()
    })
}

/// Parses one optional-string field.
pub open spec fn parse_opt_field(s: Seq<char>, key: Seq<char>, comma: bool) -> Option<
    (Option<Seq<char>>, Seq<char>),
> {
    match parse_exact(s, key) {
        Some(r) => match parse_opt_string(r) {
            Some(p) => if comma {
                match parse_exact(p.1, seq![',']) {
                    Some(r2) => Some((p.0, r2)),
                    None => None,
                }
            } else {
                Some((p.0, p.1))
            },
            None => None,
        },
        None => None,
    }
}

proof fn lemma_str_field_of(key: Seq<char>, v: Seq<char>, comma: bool, rest: Seq<char>)
    ensures
        parse_str_field(render_str_field(key, v, comma) + rest, key, comma) == Some((v, rest)),
{
    if comma {
        assert(render_str_field(key, v, comma) + rest =~= key + (render_string(v) + (seq![',']
            + rest)));
        lemma_parse_exact_of(key, render_string(v) + (seq![','] + rest));
        lemma_parse_string_of_render(v, seq![','] + rest);
        lemma_parse_exact_of(seq![','], rest);
    } else {
        assert(render_str_field(key, v, comma) + rest =~= key + (render_string(v) + rest));
        lemma_parse_exact_of(key, render_string(v) + rest);
        lemma_parse_string_of_render(v, rest);
    }
}

proof fn lemma_u64_field_of(key: Seq<char>, n: u64, comma: bool, rest: Seq<char>)
    requires
        comma || rest.len() == 0 || !is_digit(rest[0]),
    ensures
        parse_u64_field(render_u64_field(key, n as nat, comma) + rest, key, comma) == Some(
            (n, rest),
        ),
{
    if comma {
        assert(render_u64_field(key, n as nat, comma) + rest =~= key + (dec_digits(n as nat) + (
        seq![','] + rest)));
        lemma_parse_exact_of(key, dec_digits(n as nat) + (seq![','] + rest));
        lemma_parse_u64_of_dec(n, seq![','] + rest);
        lemma_parse_exact_of(seq![','], rest);
    } else {
        assert(render_u64_field(key, n as nat, comma) + rest =~= key + (dec_digits(n as nat)
            + rest));
        lemma_parse_exact_of(key, dec_digits(n as nat) + rest);
        lemma_parse_u64_of_dec(n, rest);
    }
}

proof fn lemma_opt_field_of(key: Seq<char>, o: Option<Seq<char>>, comma: bool, rest: Seq<char>)
    ensures
        parse_opt_field(render_opt_field(key, o, comma) + rest, key, comma) == Some((o, rest)),
{
    if comma {
        assert(render_opt_field(key, o, comma) + rest =~= key + (render_opt_string(o) + (seq![',']
            + rest)));
        lemma_parse_exact_of(key, render_opt_string(o) + (seq![','] + rest));
        lemma_parse_opt_string_of_render(o, seq![','] + rest);
        lemma_parse_exact_of(seq![','], rest);
    } else {
        assert(render_opt_field(key, o, comma) + rest =~= key + (render_opt_string(o) + rest));
        lemma_parse_exact_of(key, render_opt_string(o) + rest);
        lemma_parse_opt_string_of_render(o, rest);
    }
}

proof fn lemma_parse_str_field_len(s: Seq<char>, key: Seq<char>, comma: bool)
    ensures
        match parse_str_field(s, key, comma) {
            Some(p) => p.1.len() < s.len(),
            None => true,
        },
{
    if parse_str_field(s, key, comma) is Some {
        lemma_parse_exact_len(s, key);
        let r = parse_exact(s, key)->Some_0;
        lemma_parse_string_len(r);
        if comma {
            let p = parse_string(r)->Some_0;
            lemma_parse_exact_len(p.1, seq![',']);
        }
    }
}

proof fn lemma_parse_u64_field_len(s: Seq<char>, key: Seq<char>, comma: bool)
    ensures
        match parse_u64_field(s, key, comma) {
            Some(p) => p.1.len() < s.len(),
            None => true,
        },
{
    if parse_u64_field(s, key, comma) is Some {
        lemma_parse_exact_len(s, key);
        let r = parse_exact(s, key)->Some_0;
        lemma_parse_u64_len(r);
        if comma {
            let p = parse_u64(r)->Some_0;
            lemma_parse_exact_len(p.1, seq![',']);
        }
    }
}

proof fn lemma_parse_opt_field_len(s: Seq<char>, key: Seq<char>, comma: bool)
    ensures
        match parse_opt_field(s, key, comma) {
            Some(p) => p.1.len() < s.len(),
            None => true,
        },
{
    if parse_opt_field(s, key, comma) is Some {
        lemma_parse_exact_len(s, key);
        let r = parse_exact(s, key)->Some_0;
        lemma_parse_opt_string_len(r);
        if comma {
            let p = parse_opt_string(r)->Some_0;
            lemma_parse_exact_len(p.1, seq![',']);
        }
    }
}

/// The persisted form of one cast member: a fixed-order record.
#[verifier::opaque]
pub open spec fn render_actor_text(a: ActorView) -> Seq<char> {
    seq!['{'] + render_u64_field(key_id(), a.id as nat, true) + render_str_field(
        key_name(),
        a.name,
        true,
    ) + render_u64_field(key_cast_id(), a.cast_id as nat, true) + render_str_field(
        key_credit_id(),
        a.credit_id,
        true,
    ) + render_str_field(key_character(), a.character, true) + render_opt_field(
        key_profile_path(),
        a.profile_path,
        false,
    ) + seq!['}']
}

/// Parses one cast-member record, fields in persisted order.
pub open spec fn parse_actor(s: Seq<char>) -> Option<(ActorView, Seq<char>)> {
    let t = skip_ws(s);
    if t.len() > 0 && t[0] == '{' {
        match parse_u64_field(t.drop_first(), key_id(), true) {
            Some(p_id) => match parse_str_field(p_id.1, key_name(), true) {
                Some(p_name) => match parse_u64_field(p_name.1, key_cast_id(), true) {
                    Some(p_cast) => match parse_str_field(p_cast.1, key_credit_id(), true) {
                        Some(p_credit) => match parse_str_field(p_credit.1, key_character(), true) {
                            Some(p_char) => match parse_opt_field(
                                p_char.1,
                                key_profile_path(),
                                false,
                            ) {
                                Some(p_prof) => match parse_exact(p_prof.1, seq!['}']) {
                                    Some(rf) => Some(
                                        (
                                            ActorView {
                                                id: p_id.0,
                                                name: p_name.0,
                                                cast_id: p_cast.0,
                                                credit_id: p_credit.0,
                                                character: p_char.0,
                                                profile_path: p_prof.0,
                                            },
                                            rf,
                                        ),
                                    ),
                                    None => None,
                                },
                                None => None,
                            },
                            None => None,
                        },
                        None => None,
                    },
                    None => None,
                },
                None => None,
            },
            None => None,
        }
    } else {
        None
    }
}

proof fn lemma_render_actor_first(a: ActorView)
    ensures
        render_actor_text(a).len() > 0,
        render_actor_text(a)[0] == '{',
{
    reveal(render_actor_text);
}

/// A rendered cast-member record parses back to exactly the record it was
/// rendered from.
#[verifier::rlimit(100)]
#[verifier::spinoff_prover]
proof fn lemma_parse_actor_of_render(a: ActorView, rest: Seq<char>)
    ensures
        parse_actor(render_actor_text(a) + rest) == Some((a, rest)),
{
    let f1 = render_u64_field(key_id(), a.id as nat, true);
    let f2 = render_str_field(key_name(), a.name, true);
    let f3 = render_u64_field(key_cast_id(), a.cast_id as nat, true);
    let f4 = render_str_field(key_credit_id(), a.credit_id, true);
    let f5 = render_str_field(key_character(), a.character, true);
    let f6 = render_opt_field(key_profile_path(), a.profile_path, false);
    let s6 = f6 + (seq!['}'] + rest);
    let s5 = f5 + s6;
    let s4 = f4 + s5;
    let s3 = f3 + s4;
    let s2 = f2 + s3;
    let s1 = f1 + s2;
    let input = render_actor_text(a) + rest;
    let p0 = seq!['{'];
    let p1 = p0 + f1;
    let p2 = p1 + f2;
    let p3 = p2 + f3;
    let p4 = p3 + f4;
    let p5 = p4 + f5;
    let p6 = p5 + f6;
    reveal(render_actor_text);
    assert(render_actor_text(a) == p6 + seq!['}']);
    lemma_assoc(p6, seq!['}'], rest);
    lemma_assoc(p5, f6, seq!['}'] + rest);
    lemma_assoc(p4, f5, s6);
    lemma_assoc(p3, f4, s5);
    lemma_assoc(p2, f3, s4);
    lemma_assoc(p1, f2, s3);
    lemma_assoc(p0, f1, s2);
    assert(input == p0 + s1);
    assert(input =~= seq!['{'] + s1);
    lemma_render_actor_first(a);
    assert(input[0] == '{');
    assert(!is_ws('{'));
    assert(skip_ws(input) == input);
    assert(input.drop_first() =~= s1);
    lemma_u64_field_of(key_id(), a.id, true, s2);
    lemma_str_field_of(key_name(), a.name, true, s3);
    lemma_u64_field_of(key_cast_id(), a.cast_id, true, s4);
    lemma_str_field_of(key_credit_id(), a.credit_id, true, s5);
    lemma_str_field_of(key_character(), a.character, true, s6);
    lemma_opt_field_of(key_profile_path(), a.profile_path, false, seq!['}'] + rest);
    lemma_parse_exact_of(seq!['}'], rest);
    assert(parse_actor(input) is Some);
    let parsed = parse_actor(input)->Some_0;
    assert(parsed.1 == rest);
    assert(parsed.0 =~= a);
}

proof fn lemma_parse_actor_len(s: Seq<char>)
    ensures
        match parse_actor(s) {
            Some(p) => p.1.len() < s.len(),
            None => true,
        },
{
    lemma_skip_ws_len(s);
    let t = skip_ws(s);
    if t.len() > 0 && t[0] == '{' && parse_actor(s) is Some {
        lemma_parse_u64_field_len(t.drop_first(), key_id(), true);
        let p_id = parse_u64_field(t.drop_first(), key_id(), true)->Some_0;
        lemma_parse_str_field_len(p_id.1, key_name(), true);
        let p_name = parse_str_field(p_id.1, key_name(), true)->Some_0;
        lemma_parse_u64_field_len(p_name.1, key_cast_id(), true);
        let p_cast = parse_u64_field(p_name.1, key_cast_id(), true)->Some_0;
        lemma_parse_str_field_len(p_cast.1, key_credit_id(), true);
        let p_credit = parse_str_field(p_cast.1, key_credit_id(), true)->Some_0;
        lemma_parse_str_field_len(p_credit.1, key_character(), true);
        let p_char = parse_str_field(p_credit.1, key_character(), true)->Some_0;
        lemma_parse_opt_field_len(p_char.1, key_profile_path(), false);
        let p_prof = parse_opt_field(p_char.1, key_profile_path(), false)->Some_0;
        lemma_parse_exact_len(p_prof.1, seq!['}']);
    }
}

/// The inline rendering of a cast list after its first member.
pub open spec fn tail_cast_text(l: Seq<ActorView>) -> Seq<char>
    decreases l.len(),
{
    if l.len() == 0 {
        Seq::empty()
    } else {
        seq![','] + render_actor_text(l[0]) + tail_cast_text(l.drop_first())
    }
}

/// The inline rendering of a whole cast list.
pub open spec fn render_cast_text(l: Seq<ActorView>) -> Seq<char> {
    if l.len() == 0 {
        seq!['[', ']']
    } else {
        seq!['['] + render_actor_text(l[0]) + tail_cast_text(l.drop_first()) + seq![']']
    }
}

/// Parses the members of a cast list after its first.
pub open spec fn parse_more_actors(s: Seq<char>) -> Option<(Seq<ActorView>, Seq<char>)>
    decreases s.len(),
    via parse_more_actors_decreases
{
    let t = skip_ws(s);
    if t.len() == 0 {
        None
    } else if t[0] == ']' {
        Some((Seq::empty(), t.drop_first()))
    } else if t[0] == ',' {
        match parse_actor(t.drop_first()) {
            Some(p) => match parse_more_actors(p.1) {
                Some(q) => Some((seq![p.0] + q.0, q.1)),
                None => None,
            },
            None => None,
        }
    } else {
        None
    }
}

#[via_fn]
proof fn parse_more_actors_decreases(s: Seq<char>) {
    lemma_skip_ws_len(s);
    let t = skip_ws(s);
    if t.len() > 0 && t[0] == ',' {
        lemma_parse_actor_len(t.drop_first());
    }
}

/// Parses one cast list.
pub open spec fn parse_actor_list(s: Seq<char>) -> Option<(Seq<ActorView>, Seq<char>)> {
    let t = skip_ws(s);
    if t.len() > 0 && t[0] == '[' {
        let u = skip_ws(t.drop_first());
        if u.len() == 0 {
            None
        } else if u[0] == ']' {
            Some((Seq::empty(), u.drop_first()))
        } else {
            match parse_actor(u) {
                Some(p) => match parse_more_actors(p.1) {
                    Some(q) => Some((seq![p.0] + q.0, q.1)),
                    None => None,
                },
                None => None,
            }
        }
    } else {
        None
    }
}

proof fn lemma_parse_actor_same_after_ws(a: Seq<char>, b: Seq<char>)
    requires
        skip_ws(a) == skip_ws(b),
    ensures
        parse_actor(a) == parse_actor(b),
{
    lemma_skip_ws_idempotent(a);
}

proof fn lemma_parse_more_of_cast_tail(l: Seq<ActorView>, rest: Seq<char>)
    ensures
        parse_more_actors(tail_cast_text(l) + (seq![']'] + rest)) == Some((l, rest)),
    decreases l.len(),
{
    let input = tail_cast_text(l) + (seq![']'] + rest);
    if l.len() == 0 {
        assert(input =~= seq![']'] + rest);
        assert(input[0] == ']');
        assert(!is_ws(']'));
        assert(skip_ws(input) == input);
        assert(input.drop_first() =~= rest);
        assert(parse_more_actors(input) == Some((Seq::<ActorView>::empty(), rest)));
        assert(Seq::<ActorView>::empty() =~= l);
    } else {
        let first = l[0];
        let tail = l.drop_first();
        let sub = tail_cast_text(tail) + (seq![']'] + rest);
        assert(input[0] == ',');
        assert(!is_ws(','));
        assert(skip_ws(input) == input);
        assert(input.drop_first() =~= render_actor_text(first) + sub);
        lemma_parse_actor_of_render(first, sub);
        lemma_render_actor_first(first);
        assert(parse_actor(input.drop_first()) == Some((first, sub)));
        lemma_parse_more_of_cast_tail(tail, rest);
        assert(parse_more_actors(input) == Some((seq![first] + tail, rest)));
        assert(seq![first] + tail =~= l);
    }
}

/// An inline-rendered cast list parses back to exactly the list it was
/// rendered from.
proof fn lemma_parse_cast_of_render(l: Seq<ActorView>, rest: Seq<char>)
    ensures
        parse_actor_list(render_cast_text(l) + rest) == Some((l, rest)),
{
    let input = render_cast_text(l) + rest;
    assert(input[0] == '[');
    assert(!is_ws('['));
    assert(skip_ws(input) == input);
    if l.len() == 0 {
        assert(input.drop_first() =~= seq![']'] + rest);
        assert((seq![']'] + rest)[0] == ']');
        assert(!is_ws(']'));
        let u = skip_ws(input.drop_first());
        assert(u == seq![']'] + rest);
        assert(u.drop_first() =~= rest);
        assert(parse_actor_list(input) == Some((Seq::<ActorView>::empty(), rest)));
        assert(Seq::<ActorView>::empty() =~= l);
    } else {
        let first = l[0];
        let tail = l.drop_first();
        let sub = tail_cast_text(tail) + (seq![']'] + rest);
        assert(input.drop_first() =~= render_actor_text(first) + sub);
        lemma_render_actor_first(first);
        assert((render_actor_text(first) + sub)[0] == '{');
        assert(!is_ws('{'));
        let u = skip_ws(input.drop_first());
        assert(u == render_actor_text(first) + sub);
        lemma_parse_actor_of_render(first, sub);
        lemma_skip_ws_idempotent(input.drop_first());
        lemma_parse_actor_same_after_ws(u, render_actor_text(first) + sub);
        assert(parse_actor(u) == Some((first, sub)));
        lemma_parse_more_of_cast_tail(tail, rest);
        assert(parse_actor_list(input) == Some((seq![first] + tail, rest)));
        assert(seq![first] + tail =~= l);
    }
}

proof fn lemma_parse_more_strings_len(s: Seq<char>)
    ensures
        match parse_more_strings(s) {
            Some(p) => p.1.len() < s.len(),
            None => true,
        },
    decreases s.len(),
{
    lemma_skip_ws_len(s);
    let t = skip_ws(s);
    if t.len() > 0 && t[0] == ',' && parse_more_strings(s) is Some {
        lemma_parse_string_len(t.drop_first());
        let p = parse_string(t.drop_first())->Some_0;
        lemma_parse_more_strings_len(p.1);
    }
}

proof fn lemma_parse_string_list_len(s: Seq<char>)
    ensures
        match parse_string_list(s) {
            Some(p) => p.1.len() < s.len(),
            None => true,
        },
{
    lemma_skip_ws_len(s);
    let t = skip_ws(s);
    if t.len() > 0 && t[0] == '[' && parse_string_list(s) is Some {
        lemma_skip_ws_len(t.drop_first());
        let u = skip_ws(t.drop_first());
        if u.len() > 0 && u[0] != ']' {
            lemma_parse_string_len(u);
            let p = parse_string(u)->Some_0;
            lemma_parse_more_strings_len(p.1);
        }
    }
}

proof fn lemma_parse_more_actors_len(s: Seq<char>)
    ensures
        match parse_more_actors(s) {
            Some(p) => p.1.len() < s.len(),
            None => true,
        },
    decreases s.len(),
{
    lemma_skip_ws_len(s);
    let t = skip_ws(s);
    if t.len() > 0 && t[0] == ',' && parse_more_actors(s) is Some {
        lemma_parse_actor_len(t.drop_first());
        let p = parse_actor(t.drop_first())->Some_0;
        lemma_parse_more_actors_len(p.1);
    }
}

proof fn lemma_parse_actor_list_len(s: Seq<char>)
    ensures
        match parse_actor_list(s) {
            Some(p) => p.1.len() < s.len(),
            None => true,
        },
{
    lemma_skip_ws_len(s);
    let t = skip_ws(s);
    if t.len() > 0 && t[0] == '[' && parse_actor_list(s) is Some {
        lemma_skip_ws_len(t.drop_first());
        let u = skip_ws(t.drop_first());
        if u.len() > 0 && u[0] != ']' {
            lemma_parse_actor_len(u);
            let p = parse_actor(u)->Some_0;
            lemma_parse_more_actors_len(p.1);
        }
    }
}

/// One string-list field.
pub open spec fn render_genres_field(key: Seq<char>, l: Seq<Seq<char>>, comma: bool) -> Seq<
    char,
> {
    key + render_genres_text(l) + (if comma {
        seq![',']
    } else {
        Seq::<char>::empty()
    })
}

/// Parses one string-list field.
pub open spec fn parse_genres_field(s: Seq<char>, key: Seq<char>, comma: bool) -> Option<
    (Seq<Seq<char>>, Seq<char>),
> {
    match parse_exact(s, key) {
        Some(r) => match parse_string_list(r) {
            Some(p) => if comma {
                match parse_exact(p.1, seq![',']) {
                    Some(r2) => Some((p.0, r2)),
                    None => None,
                }
            } else {
                Some((p.0, p.1))
            },
            None => None,
        },
        None => None,
    }
}

/// One cast-list field.
pub open spec fn render_cast_field(key: Seq<char>, l: Seq<ActorView>, comma: bool) -> Seq<char> {
    key + render_cast_text(l) + (if comma {
        seq![',']
    } else {
        Seq::<char>::empty()
    })
}

/// Parses one cast-list field.
pub open spec fn parse_cast_field(s: Seq<char>, key: Seq<char>, comma: bool) -> Option<
    (Seq<ActorView>, Seq<char>),
> {
    match parse_exact(s, key) {
        Some(r) => match parse_actor_list(r) {
            Some(p) => if comma {
                match parse_exact(p.1, seq![',']) {
                    Some(r2) => Some((p.0, r2)),
                    None => None,
                }
            } else {
                Some((p.0, p.1))
            },
            None => None,
        },
        None => None,
    }
}

proof fn lemma_genres_field_of(key: Seq<char>, l: Seq<Seq<char>>, comma: bool, rest: Seq<char>)
    ensures
        parse_genres_field(render_genres_field(key, l, comma) + rest, key, comma) == Some(
            (l, rest),
        ),
{
    if comma {
        assert(render_genres_field(key, l, comma) + rest =~= key + (render_genres_text(l) + (
        seq![','] + rest)));
        lemma_parse_exact_of(key, render_genres_text(l) + (seq![','] + rest));
        lemma_parse_genres_of_render(l, seq![','] + rest);
        lemma_parse_exact_of(seq![','], rest);
    } else {
        assert(render_genres_field(key, l, comma) + rest =~= key + (render_genres_text(l) + rest));
        lemma_parse_exact_of(key, render_genres_text(l) + rest);
        lemma_parse_genres_of_render(l, rest);
    }
}

proof fn lemma_cast_field_of(key: Seq<char>, l: Seq<ActorView>, comma: bool, rest: Seq<char>)
    ensures
        parse_cast_field(render_cast_field(key, l, comma) + rest, key, comma) == Some((l, rest)),
{
    if comma {
        assert(render_cast_field(key, l, comma) + rest =~= key + (render_cast_text(l) + (seq![',']
            + rest)));
        lemma_parse_exact_of(key, render_cast_text(l) + (seq![','] + rest));
        lemma_parse_cast_of_render(l, seq![','] + rest);
        lemma_parse_exact_of(seq![','], rest);
    } else {
        assert(render_cast_field(key, l, comma) + rest =~= key + (render_cast_text(l) + rest));
        lemma_parse_exact_of(key, render_cast_text(l) + rest);
        lemma_parse_cast_of_render(l, rest);
    }
}

proof fn lemma_parse_genres_field_len(s: Seq<char>, key: Seq<char>, comma: bool)
    ensures
        match parse_genres_field(s, key, comma) {
            Some(p) => p.1.len() < s.len(),
            None => true,
        },
{
    if parse_genres_field(s, key, comma) is Some {
        lemma_parse_exact_len(s, key);
        let r = parse_exact(s, key)->Some_0;
        lemma_parse_string_list_len(r);
        if comma {
            let p = parse_string_list(r)->Some_0;
            lemma_parse_exact_len(p.1, seq![',']);
        }
    }
}

proof fn lemma_parse_cast_field_len(s: Seq<char>, key: Seq<char>, comma: bool)
    ensures
        match parse_cast_field(s, key, comma) {
            Some(p) => p.1.len() < s.len(),
            None => true,
        },
{
    if parse_cast_field(s, key, comma) is Some {
        lemma_parse_exact_len(s, key);
        let r = parse_exact(s, key)->Some_0;
        lemma_parse_actor_list_len(r);
        if comma {
            let p = parse_actor_list(r)->Some_0;
            lemma_parse_exact_len(p.1, seq![',']);
        }
    }
}

pub open spec fn key_foldername() -> Seq<char> {
    "\"foldername\":"@
}

pub open spec fn key_title() -> Seq<char> {
    "\"title\":"@
}

pub open spec fn key_year() -> Seq<char> {
    "\"year\":"@
}

pub open spec fn key_quality() -> Seq<char> {
    "\"quality\":"@
}

pub open spec fn key_tmdbid() -> Seq<char> {
    "\"tmdbid\":"@
}

pub open spec fn key_imdbid() -> Seq<char> {
    "\"imdbid\":"@
}

pub open spec fn key_poster_path() -> Seq<char> {
    "\"poster_path\":"@
}

pub open spec fn key_backdrop_path() -> Seq<char> {
    "\"backdrop_path\":"@
}

pub open spec fn key_tagline() -> Seq<char> {
    "\"tagline\":"@
}

pub open spec fn key_genres() -> Seq<char> {
    "\"genres\":"@
}

pub open spec fn key_cast() -> Seq<char> {
    "\"cast\":"@
}

/// The persisted form of one catalog record: a fixed-order record of the
/// unified schema.
#[verifier::opaque]
pub open spec fn render_movie_text(m: MovieView) -> Seq<char> {
    seq!['{'] + render_opt_field(key_foldername(), m.foldername, true) + render_opt_field(
        key_title(),
        m.title,
        true,
    ) + render_opt_field(key_year(), m.year, true) + render_opt_field(key_quality(), m.quality, true)
        + render_opt_field(key_tmdbid(), m.tmdbid, true) + render_opt_field(
        key_imdbid(),
        m.imdbid,
        true,
    ) + render_opt_field(key_poster_path(), m.poster_path, true) + render_opt_field(
        key_backdrop_path(),
        m.backdrop_path,
        true,
    ) + render_opt_field(key_tagline(), m.tagline, true) + render_genres_field(
        key_genres(),
        m.genres,
        true,
    ) + render_cast_field(key_cast(), m.cast, false) + seq!['}']
}

/// Parses one catalog record, fields in persisted order.
pub open spec fn parse_movie(s: Seq<char>) -> Option<(MovieView, Seq<char>)> {
    let t = skip_ws(s);
    if t.len() > 0 && t[0] == '{' {
        match parse_opt_field(t.drop_first(), key_foldername(), true) {
            Some(p1) => match parse_opt_field(p1.1, key_title(), true) {
                Some(p2) => match parse_opt_field(p2.1, key_year(), true) {
                    Some(p3) => match parse_opt_field(p3.1, key_quality(), true) {
                        Some(p4) => match parse_opt_field(p4.1, key_tmdbid(), true) {
                            Some(p5) => match parse_opt_field(p5.1, key_imdbid(), true) {
                                Some(p6) => match parse_opt_field(p6.1, key_poster_path(), true) {
                                    Some(p7) => match parse_opt_field(
                                        p7.1,
                                        key_backdrop_path(),
                                        true,
                                    ) {
                                        Some(p8) => match parse_opt_field(p8.1, key_tagline(), true) {
                                            Some(p9) => match parse_genres_field(
                                                p9.1,
                                                key_genres(),
                                                true,
                                            ) {
                                                Some(p10) => match parse_cast_field(
                                                    p10.1,
                                                    key_cast(),
                                                    false,
                                                ) {
                                                    Some(p11) => match parse_exact(
                                                        p11.1,
                                                        seq!['}'],
                                                    ) {
                                                        Some(rf) => Some(
                                                            (
                                                                MovieView {
                                                                    foldername: p1.0,
                                                                    title: p2.0,
                                                                    year: p3.0,
                                                                    quality: p4.0,
                                                                    tmdbid: p5.0,
                                                                    imdbid: p6.0,
                                                                    poster_path: p7.0,
                                                                    backdrop_path: p8.0,
                                                                    tagline: p9.0,
                                                                    genres: p10.0,
                                                                    cast: p11.0,
                                                                },
                                                                rf,
                                                            ),
                                                        ),
                                                        None => None,
                                                    },
                                                    None => None,
                                                },
                                                None => None,
                                            },
                                            None => None,
                                        },
                                        None => None,
                                    },
                                    None => None,
                                },
                                None => None,
                            },
                            None => None,
                        },
                        None => None,
                    },
                    None => None,
                },
                None => None,
            },
            None => None,
        }
    } else {
        None
    }
}

/// A rendered catalog record parses back to exactly the record it was
/// rendered from.
#[verifier::rlimit(100)]
#[verifier::spinoff_prover]
proof fn lemma_parse_movie_of_render(m: MovieView, rest: Seq<char>)
    ensures
        parse_movie(render_movie_text(m) + rest) == Some((m, rest)),
{
    let f1 = render_opt_field(key_foldername(), m.foldername, true);
    let f2 = render_opt_field(key_title(), m.title, true);
    let f3 = render_opt_field(key_year(), m.year, true);
    let f4 = render_opt_field(key_quality(), m.quality, true);
    let f5 = render_opt_field(key_tmdbid(), m.tmdbid, true);
    let f6 = render_opt_field(key_imdbid(), m.imdbid, true);
    let f7 = render_opt_field(key_poster_path(), m.poster_path, true);
    let f8 = render_opt_field(key_backdrop_path(), m.backdrop_path, true);
    let f9 = render_opt_field(key_tagline(), m.tagline, true);
    let f10 = render_genres_field(key_genres(), m.genres, true);
    let f11 = render_cast_field(key_cast(), m.cast, false);
    let s11 = f11 + (seq!['}'] + rest);
    let s10 = f10 + s11;
    let s9 = f9 + s10;
    let s8 = f8 + s9;
    let s7 = f7 + s8;
    let s6 = f6 + s7;
    let s5 = f5 + s6;
    let s4 = f4 + s5;
    let s3 = f3 + s4;
    let s2 = f2 + s3;
    let s1 = f1 + s2;
    let input = render_movie_text(m) + rest;
    let p0 = seq!['{'];
    let p1 = p0 + f1;
    let p2 = p1 + f2;
    let p3 = p2 + f3;
    let p4 = p3 + f4;
    let p5 = p4 + f5;
    let p6 = p5 + f6;
    let p7 = p6 + f7;
    let p8 = p7 + f8;
    let p9 = p8 + f9;
    let p10 = p9 + f10;
    let p11 = p10 + f11;
    reveal(render_movie_text);
    assert(render_movie_text(m) == p11 + seq!['}']);
    lemma_assoc(p11, seq!['}'], rest);
    lemma_assoc(p10, f11, seq!['}'] + rest);
    lemma_assoc(p9, f10, s11);
    lemma_assoc(p8, f9, s10);
    lemma_assoc(p7, f8, s9);
    lemma_assoc(p6, f7, s8);
    lemma_assoc(p5, f6, s7);
    lemma_assoc(p4, f5, s6);
    lemma_assoc(p3, f4, s5);
    lemma_assoc(p2, f3, s4);
    lemma_assoc(p1, f2, s3);
    lemma_assoc(p0, f1, s2);
    assert(input == p0 + s1);
    assert(input =~= seq!['{'] + s1);
    lemma_render_movie_first(m);
    assert(input[0] == '{');
    assert(!is_ws('{'));
    assert(skip_ws(input) == input);
    assert(input.drop_first() =~= s1);
    lemma_opt_field_of(key_foldername(), m.foldername, true, s2);
    lemma_opt_field_of(key_title(), m.title, true, s3);
    lemma_opt_field_of(key_year(), m.year, true, s4);
    lemma_opt_field_of(key_quality(), m.quality, true, s5);
    lemma_opt_field_of(key_tmdbid(), m.tmdbid, true, s6);
    lemma_opt_field_of(key_imdbid(), m.imdbid, true, s7);
    lemma_opt_field_of(key_poster_path(), m.poster_path, true, s8);
    lemma_opt_field_of(key_backdrop_path(), m.backdrop_path, true, s9);
    lemma_opt_field_of(key_tagline(), m.tagline, true, s10);
    lemma_genres_field_of(key_genres(), m.genres, true, s11);
    lemma_cast_field_of(key_cast(), m.cast, false, seq!['}'] + rest);
    lemma_parse_exact_of(seq!['}'], rest);
    assert(parse_movie(input) is Some);
    let parsed = parse_movie(input)->Some_0;
    assert(parsed.1 == rest);
    assert(parsed.0 =~= m);
}

proof fn lemma_parse_movie_len(s: Seq<char>)
    ensures
        match parse_movie(s) {
            Some(p) => p.1.len() < s.len(),
            None => true,
        },
{
    lemma_skip_ws_len(s);
    let t = skip_ws(s);
    if t.len() > 0 && t[0] == '{' && parse_movie(s) is Some {
        lemma_parse_opt_field_len(t.drop_first(), key_foldername(), true);
        let p1 = parse_opt_field(t.drop_first(), key_foldername(), true)->Some_0;
        lemma_parse_opt_field_len(p1.1, key_title(), true);
        let p2 = parse_opt_field(p1.1, key_title(), true)->Some_0;
        lemma_parse_opt_field_len(p2.1, key_year(), true);
        let p3 = parse_opt_field(p2.1, key_year(), true)->Some_0;
        lemma_parse_opt_field_len(p3.1, key_quality(), true);
        let p4 = parse_opt_field(p3.1, key_quality(), true)->Some_0;
        lemma_parse_opt_field_len(p4.1, key_tmdbid(), true);
        let p5 = parse_opt_field(p4.1, key_tmdbid(), true)->Some_0;
        lemma_parse_opt_field_len(p5.1, key_imdbid(), true);
        let p6 = parse_opt_field(p5.1, key_imdbid(), true)->Some_0;
        lemma_parse_opt_field_len(p6.1, key_poster_path(), true);
        let p7 = parse_opt_field(p6.1, key_poster_path(), true)->Some_0;
        lemma_parse_opt_field_len(p7.1, key_backdrop_path(), true);
        let p8 = parse_opt_field(p7.1, key_backdrop_path(), true)->Some_0;
        lemma_parse_opt_field_len(p8.1, key_tagline(), true);
        let p9 = parse_opt_field(p8.1, key_tagline(), true)->Some_0;
        lemma_parse_genres_field_len(p9.1, key_genres(), true);
        let p10 = parse_genres_field(p9.1, key_genres(), true)->Some_0;
        lemma_parse_cast_field_len(p10.1, key_cast(), false);
        let p11 = parse_cast_field(p10.1, key_cast(), false)->Some_0;
        lemma_parse_exact_len(p11.1, seq!['}']);
    }
}

proof fn lemma_render_movie_first(m: MovieView)
    ensures
        render_movie_text(m).len() > 0,
        render_movie_text(m)[0] == '{',
{
    reveal(render_movie_text);
}

/// The rendered catalog after its first record: a comma, a line break, and
/// the next record, repeated.
pub open spec fn tail_movies_text(l: Seq<MovieView>) -> Seq<char>
    decreases l.len(),
{
    if l.len() == 0 {
        Seq::empty()
    } else {
        seq![','] + nl2() + render_movie_text(l[0]) + tail_movies_text(l.drop_first())
    }
}

/// A whole rendered catalog document: a JSON array with one record per line.
pub open spec fn render_catalog_text(l: Seq<MovieView>) -> Seq<char> {
    if l.len() == 0 {
        seq!['[', '\n', ']']
    } else {
        seq!['['] + nl2() + render_movie_text(l[0]) + tail_movies_text(l.drop_first()) + seq![
            '\n',
            ']',
        ]
    }
}

/// Parses the records of a catalog after its first.
pub open spec fn parse_more_movies(s: Seq<char>) -> Option<(Seq<MovieView>, Seq<char>)>
    decreases s.len(),
    via parse_more_movies_decreases
{
    let t = skip_ws(s);
    if t.len() == 0 {
        None
    } else if t[0] == ']' {
        Some((Seq::empty(), t.drop_first()))
    } else if t[0] == ',' {
        match parse_movie(t.drop_first()) {
            Some(p) => match parse_more_movies(p.1) {
                Some(q) => Some((seq![p.0] + q.0, q.1)),
                None => None,
            },
            None => None,
        }
    } else {
        None
    }
}

#[via_fn]
proof fn parse_more_movies_decreases(s: Seq<char>) {
    lemma_skip_ws_len(s);
    let t = skip_ws(s);
    if t.len() > 0 && t[0] == ',' {
        lemma_parse_movie_len(t.drop_first());
    }
}

/// Parses one catalog list: a bracketed, comma-separated sequence of
/// records.
pub open spec fn parse_movie_list(s: Seq<char>) -> Option<(Seq<MovieView>, Seq<char>)> {
    let t = skip_ws(s);
    if t.len() > 0 && t[0] == '[' {
        let u = skip_ws(t.drop_first());
        if u.len() == 0 {
            None
        } else if u[0] == ']' {
            Some((Seq::empty(), u.drop_first()))
        } else {
            match parse_movie(u) {
                Some(p) => match parse_more_movies(p.1) {
                    Some(q) => Some((seq![p.0] + q.0, q.1)),
                    None => None,
                },
                None => None,
            }
        }
    } else {
        None
    }
}

/// Parses a whole catalog document: one record list and nothing after it
/// but whitespace.
pub open spec fn parse_catalog(s: Seq<char>) -> Option<Seq<MovieView>> {
    match parse_movie_list(s) {
        Some(p) => if skip_ws(p.1).len() == 0 {
            Some(p.0)
        } else {
            None
        },
        None => None,
    }
}

proof fn lemma_parse_movie_same_after_ws(a: Seq<char>, b: Seq<char>)
    requires
        skip_ws(a) == skip_ws(b),
    ensures
        parse_movie(a) == parse_movie(b),
{
    lemma_skip_ws_idempotent(a);
}

#[verifier::rlimit(100)]
proof fn lemma_parse_more_of_movies_tail(l: Seq<MovieView>, rest: Seq<char>)
    ensures
        parse_more_movies(tail_movies_text(l) + (seq!['\n', ']'] + rest)) == Some((l, rest)),
    decreases l.len(),
{
    let input = tail_movies_text(l) + (seq!['\n', ']'] + rest);
    if l.len() == 0 {
        assert(input =~= seq!['\n'] + (seq![']'] + rest));
        lemma_skip_ws_prefix(seq!['\n'], seq![']'] + rest);
        let t = skip_ws(input);
        assert(!is_ws(']'));
        assert(t == seq![']'] + rest);
        assert(t[0] == ']');
        assert(t.drop_first() =~= rest);
        assert(parse_more_movies(input) == Some((Seq::<MovieView>::empty(), rest)));
        assert(Seq::<MovieView>::empty() =~= l);
    } else {
        let first = l[0];
        let tail = l.drop_first();
        let sub = tail_movies_text(tail) + (seq!['\n', ']'] + rest);
        assert(input[0] == ',');
        assert(!is_ws(','));
        assert(skip_ws(input) == input);
        let after_comma = input.drop_first();
        assert(after_comma =~= nl2() + (render_movie_text(first) + sub));
        assert(forall|k: int| 0 <= k < nl2().len() ==> is_ws(#[trigger] nl2()[k]));
        lemma_skip_ws_prefix(nl2(), render_movie_text(first) + sub);
        lemma_parse_movie_of_render(first, sub);
        lemma_render_movie_first(first);
        assert((render_movie_text(first) + sub)[0] == '{');
        assert(skip_ws(render_movie_text(first) + sub) == render_movie_text(first) + sub);
        lemma_parse_movie_same_after_ws(after_comma, render_movie_text(first) + sub);
        assert(parse_movie(after_comma) == Some((first, sub)));
        lemma_parse_more_of_movies_tail(tail, rest);
        assert(parse_more_movies(input) == Some((seq![first] + tail, rest)));
        assert(seq![first] + tail =~= l);
    }
}

/// A rendered catalog list parses back to exactly the records it was
/// rendered from.
#[verifier::rlimit(100)]
proof fn lemma_parse_movies_of_render(l: Seq<MovieView>, rest: Seq<char>)
    ensures
        parse_movie_list(render_catalog_text(l) + rest) == Some((l, rest)),
{
    let input = render_catalog_text(l) + rest;
    assert(input[0] == '[');
    assert(!is_ws('['));
    assert(skip_ws(input) == input);
    if l.len() == 0 {
        assert(input.drop_first() =~= seq!['\n'] + (seq![']'] + rest));
        lemma_skip_ws_prefix(seq!['\n'], seq![']'] + rest);
        let u = skip_ws(input.drop_first());
        assert(!is_ws(']'));
        assert(u == seq![']'] + rest);
        assert(u[0] == ']');
        assert(u.drop_first() =~= rest);
        assert(parse_movie_list(input) == Some((Seq::<MovieView>::empty(), rest)));
        assert(Seq::<MovieView>::empty() =~= l);
    } else {
        let first = l[0];
        let tail = l.drop_first();
        let sub = tail_movies_text(tail) + (seq!['\n', ']'] + rest);
        assert(input.drop_first() =~= nl2() + (render_movie_text(first) + sub));
        assert(forall|k: int| 0 <= k < nl2().len() ==> is_ws(#[trigger] nl2()[k]));
        lemma_skip_ws_prefix(nl2(), render_movie_text(first) + sub);
        lemma_render_movie_first(first);
        let u = skip_ws(input.drop_first());
        assert((render_movie_text(first) + sub)[0] == '{');
        assert(!is_ws('{'));
        assert(u == render_movie_text(first) + sub);
        assert(skip_ws(u) == u);
        lemma_parse_movie_of_render(first, sub);
        lemma_parse_movie_same_after_ws(u, render_movie_text(first) + sub);
        assert(parse_movie(u) == Some((first, sub)));
        lemma_parse_more_of_movies_tail(tail, rest);
        assert(parse_movie_list(input) == Some((seq![first] + tail, rest)));
        assert(seq![first] + tail =~= l);
    }
}

/// Persisting then loading round-trips: a rendered catalog document parses
/// back to a catalog field-wise equal to the one it was rendered from.
pub proof fn lemma_catalog_round_trip(l: Seq<MovieView>)
    ensures
        parse_catalog(render_catalog_text(l)) == Some(l),
{
    lemma_parse_movies_of_render(l, Seq::empty());
    assert(render_catalog_text(l) + Seq::<char>::empty() =~= render_catalog_text(l));
}

/// Appends the characters of a fixed token.
fn push_literal(out: &mut Vec<char>, lit: &str)
    ensures
        final(out)@ == old(out)@ + lit@,
{
    let ghost base = out@;
    let n = lit.unicode_len();
    for i in 0..n
        invariant
            n == lit@.len(),
            out@ == base + lit@.take(i as int),
    {
        let c = lit.get_char(i);
        out.push(c);
        proof {
            assert(lit@.take(i + 1) =~= lit@.take(i as int).push(lit@[i as int]));
            assert(out@ =~= base + lit@.take(i + 1));
        }
    }
    assert(lit@.take(n as int) =~= lit@);
}

fn push_digit(out: &mut Vec<char>, d: u64)
    requires
        d < 10,
    ensures
        final(out)@ == old(out)@ + seq![digit_char(d as nat)],
{
    let c: char = if d == 0 {
        '0'
    } else if d == 1 {
        '1'
    } else if d == 2 {
        '2'
    } else if d == 3 {
        '3'
    } else if d == 4 {
        '4'
    } else if d == 5 {
        '5'
    } else if d == 6 {
        '6'
    } else if d == 7 {
        '7'
    } else if d == 8 {
        '8'
    } else {
        '9'
    };
    out.push(c);
    assert(out@ =~= old(out)@ + seq![digit_char(d as nat)]);
}

/// Appends the decimal rendering of a number.
fn push_u64(out: &mut Vec<char>, x: u64)
    ensures
        final(out)@ == old(out)@ + dec_digits(x as nat),
    decreases x,
{
    if x >= 10 {
        push_u64(out, x / 10);
    }
    push_digit(out, x % 10);
    proof {
        if x < 10 {
            assert(x % 10 == x) by (nonlinear_arith)
                requires
                    0 <= x < 10,
            ;
            assert(out@ =~= old(out)@ + dec_digits(x as nat));
        } else {
            assert((x as nat) / 10 == (x / 10) as nat);
            assert((x as nat) % 10 == (x % 10) as nat);
            assert(dec_digits(x as nat) == dec_digits((x as nat) / 10).push(
                digit_char((x as nat) % 10),
            ));
            assert(out@ =~= old(out)@ + dec_digits(x as nat));
        }
    }
}

/// Appends a rendered optional string: a literal or `null`.
fn push_opt_string(out: &mut Vec<char>, o: &Option<String>)
    ensures
        final(out)@ == old(out)@ + render_opt_string(o.deep_view()),
{
    match o {
        Some(v) => {
            push_string_literal(out, v);
        },
        None => {
            out.push('n');
            out.push('u');
            out.push('l');
            out.push('l');
            assert(out@ =~= old(out)@ + null_text());
        },
    }
}

proof fn lemma_tail_genres_snoc(l: Seq<Seq<char>>, x: Seq<char>)
    ensures
        tail_genres_text(l.push(x)) == tail_genres_text(l) + (seq![','] + render_string(x)),
    decreases l.len(),
{
    if l.len() == 0 {
        assert(l.push(x)[0] == x);
        assert(l.push(x).drop_first() =~= Seq::<Seq<char>>::empty());
        assert(tail_genres_text(Seq::<Seq<char>>::empty()) == Seq::<char>::empty());
        assert(tail_genres_text(l.push(x)) == seq![','] + render_string(x) + tail_genres_text(
            Seq::<Seq<char>>::empty(),
        ));
        assert(tail_genres_text(l.push(x)) =~= tail_genres_text(l) + (seq![','] + render_string(
            x,
        )));
    } else {
        assert(l.push(x)[0] == l[0]);
        assert(l.push(x).drop_first() =~= l.drop_first().push(x));
        lemma_tail_genres_snoc(l.drop_first(), x);
        assert(seq![','] + render_string(l[0]) + (tail_genres_text(l.drop_first()) + (seq![',']
            + render_string(x))) =~= (seq![','] + render_string(l[0]) + tail_genres_text(
            l.drop_first(),
        )) + (seq![','] + render_string(x)));
    }
}

/// Appends an inline-rendered string list.
fn push_genres(out: &mut Vec<char>, genres: &Vec<String>)
    ensures
        final(out)@ == old(out)@ + render_genres_text(genres.deep_view()),
{
    let ghost o = old(out)@;
    let ghost gv = genres.deep_view();
    out.push('[');
    if genres.len() == 0 {
        out.push(']');
        assert(out@ =~= o + render_genres_text(gv));
    } else {
        push_string_literal(out, &genres[0]);
        let ghost head = seq!['['] + render_string(gv[0]);
        assert(out@ =~= o + (head + tail_genres_text(gv.take(1).drop_first())));
        let n = genres.len();
        for i in 1..n
            invariant
                n == genres.len(),
                1 <= i <= n,
                gv == genres.deep_view(),
                head == seq!['['] + render_string(gv[0]),
                out@ == o + (head + tail_genres_text(gv.take(i as int).drop_first())),
        {
            let ghost pre = gv.take(i as int).drop_first();
            out.push(',');
            push_string_literal(out, &genres[i]);
            proof {
                lemma_tail_genres_snoc(pre, gv[i as int]);
                assert(gv.take(i + 1).drop_first() =~= pre.push(gv[i as int]));
                assert(out@ =~= o + (head + tail_genres_text(gv.take(i + 1).drop_first())));
            }
        }
        proof {
            assert(gv.take(n as int) =~= gv);
        }
        out.push(']');
        assert(out@ =~= o + render_genres_text(gv));
    }
}

/// Appends one rendered cast-member record.
fn push_actor(out: &mut Vec<char>, a: &crate::records::Actor)
    ensures
        final(out)@ == old(out)@ + render_actor_text(a@),
{
    let ghost o = old(out)@;
    let ghost f1 = render_u64_field(key_id(), a@.id as nat, true);
    let ghost f2 = render_str_field(key_name(), a@.name, true);
    let ghost f3 = render_u64_field(key_cast_id(), a@.cast_id as nat, true);
    let ghost f4 = render_str_field(key_credit_id(), a@.credit_id, true);
    let ghost f5 = render_str_field(key_character(), a@.character, true);
    let ghost f6 = render_opt_field(key_profile_path(), a@.profile_path, false);
    let ghost p0 = seq!['{'];
    let ghost p1 = p0 + f1;
    let ghost p2 = p1 + f2;
    let ghost p3 = p2 + f3;
    let ghost p4 = p3 + f4;
    let ghost p5 = p4 + f5;
    let ghost p6 = p5 + f6;
    out.push('{');
    assert(out@ =~= o + p0);
    push_literal(out, "\"id\":");
    push_u64(out, a.id);
    out.push(',');
    proof {
        assert(out@ =~= (o + p0) + f1);
        lemma_assoc(o, p0, f1);
    }
    push_literal(out, "\"name\":");
    push_string_literal(out, &a.name);
    out.push(',');
    proof {
        assert(out@ =~= (o + p1) + f2);
        lemma_assoc(o, p1, f2);
    }
    push_literal(out, "\"cast_id\":");
    push_u64(out, a.cast_id);
    out.push(',');
    proof {
        assert(out@ =~= (o + p2) + f3);
        lemma_assoc(o, p2, f3);
    }
    push_literal(out, "\"credit_id\":");
    push_string_literal(out, &a.credit_id);
    out.push(',');
    proof {
        assert(out@ =~= (o + p3) + f4);
        lemma_assoc(o, p3, f4);
    }
    push_literal(out, "\"character\":");
    push_string_literal(out, &a.character);
    out.push(',');
    proof {
        assert(out@ =~= (o + p4) + f5);
        lemma_assoc(o, p4, f5);
    }
    push_literal(out, "\"profile_path\":");
    push_opt_string(out, &a.profile_path);
    proof {
        assert(out@ =~= (o + p5) + f6);
        lemma_assoc(o, p5, f6);
    }
    out.push('}');
    proof {
        reveal(render_actor_text);
        assert(render_actor_text(a@) == p6 + seq!['}']);
        lemma_assoc(o, p6, seq!['}']);
        assert(out@ =~= (o + p6) + seq!['}']);
    }
}

proof fn lemma_tail_cast_snoc(l: Seq<ActorView>, x: ActorView)
    ensures
        tail_cast_text(l.push(x)) == tail_cast_text(l) + (seq![','] + render_actor_text(x)),
    decreases l.len(),
{
    if l.len() == 0 {
        assert(l.push(x)[0] == x);
        assert(l.push(x).drop_first() =~= Seq::<ActorView>::empty());
        assert(tail_cast_text(Seq::<ActorView>::empty()) == Seq::<char>::empty());
        assert(tail_cast_text(l.push(x)) == seq![','] + render_actor_text(x) + tail_cast_text(
            Seq::<ActorView>::empty(),
        ));
        assert(tail_cast_text(l.push(x)) =~= tail_cast_text(l) + (seq![','] + render_actor_text(
            x,
        )));
    } else {
        assert(l.push(x)[0] == l[0]);
        assert(l.push(x).drop_first() =~= l.drop_first().push(x));
        lemma_tail_cast_snoc(l.drop_first(), x);
        assert(seq![','] + render_actor_text(l[0]) + (tail_cast_text(l.drop_first()) + (seq![',']
            + render_actor_text(x))) =~= (seq![','] + render_actor_text(l[0]) + tail_cast_text(
            l.drop_first(),
        )) + (seq![','] + render_actor_text(x)));
    }
}

/// Appends an inline-rendered cast list.
fn push_cast(out: &mut Vec<char>, cast: &Vec<crate::records::Actor>)
    ensures
        final(out)@ == old(out)@ + render_cast_text(cast.deep_view()),
{
    let ghost o = old(out)@;
    let ghost cv = cast.deep_view();
    out.push('[');
    if cast.len() == 0 {
        out.push(']');
        assert(out@ =~= o + render_cast_text(cv));
    } else {
        push_actor(out, &cast[0]);
        let ghost head = seq!['['] + render_actor_text(cv[0]);
        assert(out@ =~= o + (head + tail_cast_text(cv.take(1).drop_first())));
        let n = cast.len();
        for i in 1..n
            invariant
                n == cast.len(),
                1 <= i <= n,
                cv == cast.deep_view(),
                head == seq!['['] + render_actor_text(cv[0]),
                out@ == o + (head + tail_cast_text(cv.take(i as int).drop_first())),
        {
            let ghost pre = cv.take(i as int).drop_first();
            out.push(',');
            push_actor(out, &cast[i]);
            proof {
                lemma_tail_cast_snoc(pre, cv[i as int]);
                assert(cv.take(i + 1).drop_first() =~= pre.push(cv[i as int]));
                assert(out@ =~= o + (head + tail_cast_text(cv.take(i + 1).drop_first())));
            }
        }
        proof {
            assert(cv.take(n as int) =~= cv);
        }
        out.push(']');
        assert(out@ =~= o + render_cast_text(cv));
    }
}

/// Appends one rendered catalog record.
#[verifier::rlimit(100)]
#[verifier::spinoff_prover]
fn push_movie(out: &mut Vec<char>, m: &crate::records::Movie)
    ensures
        final(out)@ == old(out)@ + render_movie_text(m@),
{
    let ghost o = old(out)@;
    let ghost f1 = render_opt_field(key_foldername(), m@.foldername, true);
    let ghost f2 = render_opt_field(key_title(), m@.title, true);
    let ghost f3 = render_opt_field(key_year(), m@.year, true);
    let ghost f4 = render_opt_field(key_quality(), m@.quality, true);
    let ghost f5 = render_opt_field(key_tmdbid(), m@.tmdbid, true);
    let ghost f6 = render_opt_field(key_imdbid(), m@.imdbid, true);
    let ghost f7 = render_opt_field(key_poster_path(), m@.poster_path, true);
    let ghost f8 = render_opt_field(key_backdrop_path(), m@.backdrop_path, true);
    let ghost f9 = render_opt_field(key_tagline(), m@.tagline, true);
    let ghost f10 = render_genres_field(key_genres(), m@.genres, true);
    let ghost f11 = render_cast_field(key_cast(), m@.cast, false);
    let ghost p0 = seq!['{'];
    let ghost p1 = p0 + f1;
    let ghost p2 = p1 + f2;
    let ghost p3 = p2 + f3;
    let ghost p4 = p3 + f4;
    let ghost p5 = p4 + f5;
    let ghost p6 = p5 + f6;
    let ghost p7 = p6 + f7;
    let ghost p8 = p7 + f8;
    let ghost p9 = p8 + f9;
    let ghost p10 = p9 + f10;
    let ghost p11 = p10 + f11;
    out.push('{');
    assert(out@ =~= o + p0);
    push_literal(out, "\"foldername\":");
    push_opt_string(out, &m.foldername);
    out.push(',');
    proof {
        assert(out@ =~= (o + p0) + f1);
        lemma_assoc(o, p0, f1);
    }
    push_literal(out, "\"title\":");
    push_opt_string(out, &m.title);
    out.push(',');
    proof {
        assert(out@ =~= (o + p1) + f2);
        lemma_assoc(o, p1, f2);
    }
    push_literal(out, "\"year\":");
    push_opt_string(out, &m.year);
    out.push(',');
    proof {
        assert(out@ =~= (o + p2) + f3);
        lemma_assoc(o, p2, f3);
    }
    push_literal(out, "\"quality\":");
    push_opt_string(out, &m.quality);
    out.push(',');
    proof {
        assert(out@ =~= (o + p3) + f4);
        lemma_assoc(o, p3, f4);
    }
    push_literal(out, "\"tmdbid\":");
    push_opt_string(out, &m.tmdbid);
    out.push(',');
    proof {
        assert(out@ =~= (o + p4) + f5);
        lemma_assoc(o, p4, f5);
    }
    push_literal(out, "\"imdbid\":");
    push_opt_string(out, &m.imdbid);
    out.push(',');
    proof {
        assert(out@ =~= (o + p5) + f6);
        lemma_assoc(o, p5, f6);
    }
    push_literal(out, "\"poster_path\":");
    push_opt_string(out, &m.poster_path);
    out.push(',');
    proof {
        assert(out@ =~= (o + p6) + f7);
        lemma_assoc(o, p6, f7);
    }
    push_literal(out, "\"backdrop_path\":");
    push_opt_string(out, &m.backdrop_path);
    out.push(',');
    proof {
        assert(out@ =~= (o + p7) + f8);
        lemma_assoc(o, p7, f8);
    }
    push_literal(out, "\"tagline\":");
    push_opt_string(out, &m.tagline);
    out.push(',');
    proof {
        assert(out@ =~= (o + p8) + f9);
        lemma_assoc(o, p8, f9);
    }
    push_literal(out, "\"genres\":");
    push_genres(out, &m.genres);
    out.push(',');
    proof {
        assert(out@ =~= (o + p9) + f10);
        lemma_assoc(o, p9, f10);
    }
    push_literal(out, "\"cast\":");
    push_cast(out, &m.cast);
    proof {
        assert(out@ =~= (o + p10) + f11);
        lemma_assoc(o, p10, f11);
    }
    out.push('}');
    proof {
        reveal(render_movie_text);
        assert(render_movie_text(m@) == p11 + seq!['}']);
        lemma_assoc(o, p11, seq!['}']);
        assert(out@ =~= (o + p11) + seq!['}']);
    }
}

proof fn lemma_tail_movies_snoc(l: Seq<MovieView>, x: MovieView)
    ensures
        tail_movies_text(l.push(x)) == tail_movies_text(l) + (seq![','] + nl2()
            + render_movie_text(x)),
    decreases l.len(),
{
    if l.len() == 0 {
        assert(l.push(x)[0] == x);
        assert(l.push(x).drop_first() =~= Seq::<MovieView>::empty());
        assert(tail_movies_text(Seq::<MovieView>::empty()) == Seq::<char>::empty());
        assert(tail_movies_text(l.push(x)) == seq![','] + nl2() + render_movie_text(x)
            + tail_movies_text(Seq::<MovieView>::empty()));
        assert(tail_movies_text(l.push(x)) =~= tail_movies_text(l) + (seq![','] + nl2()
            + render_movie_text(x)));
    } else {
        assert(l.push(x)[0] == l[0]);
        assert(l.push(x).drop_first() =~= l.drop_first().push(x));
        lemma_tail_movies_snoc(l.drop_first(), x);
        assert(seq![','] + nl2() + render_movie_text(l[0]) + (tail_movies_text(l.drop_first()) + (
        seq![','] + nl2() + render_movie_text(x))) =~= (seq![','] + nl2() + render_movie_text(l[0])
            + tail_movies_text(l.drop_first())) + (seq![','] + nl2() + render_movie_text(x)));
    }
}

/// Persist: renders a whole catalog as the persisted JSON document, one
/// record per line; the text provably loads back to a catalog field-wise
/// equal to the one rendered.
pub fn write_movies(movies: &Vec<crate::records::Movie>) -> (text: String)
    ensures
        text@ == render_catalog_text(movies.deep_view()),
        parse_catalog(text@) == Some(movies.deep_view()),
{
    let ghost mv = movies.deep_view();
    let mut out: Vec<char> = Vec::new();
    out.push('[');
    if movies.len() == 0 {
        out.push('\n');
        out.push(']');
        assert(out@ =~= render_catalog_text(mv));
    } else {
        out.push('\n');
        out.push(' ');
        out.push(' ');
        push_movie(&mut out, &movies[0]);
        let ghost head = seq!['['] + nl2() + render_movie_text(mv[0]);
        assert(out@ =~= head + tail_movies_text(mv.take(1).drop_first()));
        let n = movies.len();
        for i in 1..n
            invariant
                n == movies.len(),
                1 <= i <= n,
                mv == movies.deep_view(),
                head == seq!['['] + nl2() + render_movie_text(mv[0]),
                out@ == head + tail_movies_text(mv.take(i as int).drop_first()),
        {
            let ghost pre = mv.take(i as int).drop_first();
            out.push(',');
            out.push('\n');
            out.push(' ');
            out.push(' ');
            push_movie(&mut out, &movies[i]);
            proof {
                lemma_tail_movies_snoc(pre, mv[i as int]);
                assert(mv.take(i + 1).drop_first() =~= pre.push(mv[i as int]));
                assert(out@ =~= head + tail_movies_text(mv.take(i + 1).drop_first()));
            }
        }
        proof {
            assert(mv.take(n as int) =~= mv);
        }
        out.push('\n');
        out.push(']');
        assert(out@ =~= render_catalog_text(mv));
    }
    let text = chars_to_string(out);
    proof {
        lemma_catalog_round_trip(mv);
    }
    text
}

} // verus!
