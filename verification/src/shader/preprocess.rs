//! A minimal C-style preprocessor for Milkdrop preset shaders: it strips
//! comments, joins line continuations and expands object-like and
//! function-like `#define` macros (the preset shader header is built almost
//! entirely from these). Other directives (`#ifdef` and the like) are dropped
//! with their lines.
//!
//! The preprocessor works on bytes. Text it writes holds one `char` per byte
//! (so a non-ASCII byte becomes the Latin-1 character of that value), and text
//! it reads again is read through its UTF-8 encoding, in which each such
//! character at or above `0x80` takes two bytes (`reencode`). The functions
//! below state every pass over byte sequences in exactly these terms.

use vstd::prelude::*;
use crate::text::push_char;

verus! {

// ------------------------------------------------------------ bytes --

pub open spec fn is_alpha_byte(c: u8) -> bool {
    (65 <= c && c <= 90) || (97 <= c && c <= 122)
}

pub open spec fn is_ident_start_byte(c: u8) -> bool {
    is_alpha_byte(c) || c == 95
}

pub open spec fn is_ident_continue_byte(c: u8) -> bool {
    is_alpha_byte(c) || (48 <= c && c <= 57) || c == 95
}

/// Bytes whose Latin-1 character is Unicode white space.
pub open spec fn is_space_byte(c: u8) -> bool {
    (9 <= c && c <= 13) || c == 32 || c == 0x85 || c == 0xA0
}

/// The UTF-8 encoding of the Latin-1 character `c`.
pub open spec fn latin1_utf8(c: u8) -> Seq<u8> {
    if c < 0x80 {
        seq![c]
    } else {
        seq![(0xC0 + c / 64) as u8, (0x80 + c % 64) as u8]
    }
}

/// The UTF-8 bytes of text holding one Latin-1 character per byte of `b`.
pub open spec fn reencode(b: Seq<u8>) -> Seq<u8>
    decreases b.len(),
{
    if b.len() == 0 {
        Seq::empty()
    } else {
        reencode(b.subrange(0, b.len() - 1)) + latin1_utf8(b[b.len() - 1])
    }
}

/// The text holding one Latin-1 character per byte.
pub open spec fn latin1_text(b: Seq<u8>) -> Seq<char> {
    b.map_values(|c: u8| c as char)
}

/// The number of ASCII bytes.
pub open spec fn ascii_count(b: Seq<u8>) -> nat
    decreases b.len(),
{
    if b.len() == 0 {
        0
    } else {
        ascii_count(b.subrange(0, b.len() - 1)) + (if b[b.len() - 1] < 0x80 { 1nat } else { 0nat })
    }
}

/// `b` without leading white space.
pub open spec fn trim_start(b: Seq<u8>) -> Seq<u8>
    decreases b.len(),
{
    if b.len() > 0 && is_space_byte(b[0]) {
        trim_start(b.subrange(1, b.len() as int))
    } else {
        b
    }
}

/// `b` without trailing white space.
pub open spec fn trim_end(b: Seq<u8>) -> Seq<u8>
    decreases b.len(),
{
    if b.len() > 0 && is_space_byte(b[b.len() - 1]) {
        trim_end(b.subrange(0, b.len() - 1))
    } else {
        b
    }
}

pub open spec fn trim(b: Seq<u8>) -> Seq<u8> {
    trim_end(trim_start(b))
}

/// The end of the identifier characters starting at `i`.
pub open spec fn ident_end(b: Seq<u8>, i: int) -> int
    decreases b.len() - i,
{
    if 0 <= i < b.len() && is_ident_continue_byte(b[i]) {
        ident_end(b, i + 1)
    } else {
        i
    }
}

// ---------------------------------------------------------- comments --

/// The first newline at or after `i` (or the end).
pub open spec fn line_end(b: Seq<u8>, i: int) -> int
    decreases b.len() - i,
{
    if 0 <= i < b.len() && b[i] != 10 {
        line_end(b, i + 1)
    } else {
        i
    }
}

/// Where a block comment whose text starts at `i` closes: the `*` of `*/`,
/// or the last byte if it is not closed.
pub open spec fn block_end(b: Seq<u8>, i: int) -> int
    decreases b.len() - i,
{
    if 0 <= i && i + 1 < b.len() && !(b[i] == 42 && b[i + 1] == 47) {
        block_end(b, i + 1)
    } else {
        i
    }
}

/// The newlines of `b[i..j]`.
pub open spec fn newlines(b: Seq<u8>, i: int, j: int) -> Seq<u8>
    decreases j - i,
{
    if i < j {
        (if b[i] == 10 { seq![10u8] } else { Seq::empty() }) + newlines(b, i + 1, j)
    } else {
        Seq::empty()
    }
}

/// `b[i..]` with `//` comments removed and each `/* */` comment replaced by
/// its newlines and a space.
pub open spec fn strip_comments(b: Seq<u8>, i: int) -> Seq<u8>
    decreases b.len() - i,
{
    if i < 0 || i >= b.len() {
        Seq::empty()
    } else if b[i] == 47 && i + 1 < b.len() && b[i + 1] == 47 {
        proof {
            lemma_line_end(b, i);
        }
        if line_end(b, i) > i {
            strip_comments(b, line_end(b, i))
        } else {
            Seq::empty()
        }
    } else if b[i] == 47 && i + 1 < b.len() && b[i + 1] == 42 {
        let e = block_end(b, i + 2);
        proof {
            lemma_block_end(b, i + 2);
        }
        newlines(b, i + 2, e) + seq![32u8] + (if e + 2 < b.len() {
            strip_comments(b, e + 2)
        } else {
            Seq::empty()
        })
    } else {
        seq![b[i]] + strip_comments(b, i + 1)
    }
}

/// The number of newlines in `b[i..]`.
pub open spec fn newline_count(b: Seq<u8>, i: int) -> int
    decreases b.len() - i,
{
    if i < 0 || i >= b.len() {
        0
    } else {
        (if b[i] == 10 { 1int } else { 0int }) + newline_count(b, i + 1)
    }
}

/// Whether scanning `b[i..]` for comments ends inside a block comment that
/// is never closed.
pub open spec fn ends_in_open_comment(b: Seq<u8>, i: int) -> bool
    decreases b.len() - i,
{
    if i < 0 || i >= b.len() {
        false
    } else if b[i] == 47 && i + 1 < b.len() && b[i + 1] == 47 {
        proof {
            lemma_line_end(b, i);
        }
        if line_end(b, i) > i {
            ends_in_open_comment(b, line_end(b, i))
        } else {
            false
        }
    } else if b[i] == 47 && i + 1 < b.len() && b[i + 1] == 42 {
        let e = block_end(b, i + 2);
        proof {
            lemma_block_end(b, i + 2);
        }
        if e + 2 < b.len() {
            ends_in_open_comment(b, e + 2)
        } else {
            !(e + 1 < b.len() && b[e] == 42 && b[e + 1] == 47)
        }
    } else {
        ends_in_open_comment(b, i + 1)
    }
}

proof fn lemma_block_end_stop(b: Seq<u8>, i: int)
    requires
        0 <= i,
    ensures
        block_end(b, i) + 1 >= b.len() || (b[block_end(b, i)] == 42 && b[block_end(b, i) + 1] == 47),
        i + 1 >= b.len() ==> block_end(b, i) == i,
        i < b.len() ==> block_end(b, i) < b.len(),
    decreases b.len() - i,
{
    if i + 1 < b.len() && !(b[i] == 42 && b[i + 1] == 47) {
        lemma_block_end_stop(b, i + 1);
    }
}

proof fn lemma_newline_count_concat(x: Seq<u8>, y: Seq<u8>)
    ensures
        newline_count(x + y, 0) == newline_count(x, 0) + newline_count(y, 0),
    decreases x.len(),
{
    if x.len() > 0 {
        let t = x.subrange(1, x.len() as int);
        lemma_newline_count_concat(t, y);
        lemma_newline_count_shift(x + y, 1);
        lemma_newline_count_shift(x, 1);
        assert((x + y).subrange(1, (x + y).len() as int) =~= t + y);
    } else {
        assert(x + y =~= y);
    }
}

/// Counting from `i` is counting in the suffix that starts there.
proof fn lemma_newline_count_shift(b: Seq<u8>, i: int)
    requires
        0 <= i <= b.len(),
    ensures
        newline_count(b, i) == newline_count(b.subrange(i, b.len() as int), 0),
    decreases b.len() - i,
{
    let t = b.subrange(i, b.len() as int);
    if i < b.len() {
        lemma_newline_count_shift(b, i + 1);
        lemma_newline_count_shift(t, 1);
        assert(t.subrange(1, t.len() as int) =~= b.subrange(i + 1, b.len() as int));
    }
}

/// The newlines of `b[i..j]` are as many as `b[i..j]` holds.
proof fn lemma_newlines_count(b: Seq<u8>, i: int, j: int)
    requires
        0 <= i <= j <= b.len(),
    ensures
        newline_count(newlines(b, i, j), 0) == newline_count(b, i) - newline_count(b, j),
    decreases j - i,
{
    if i < j {
        lemma_newlines_count(b, i + 1, j);
        let h: Seq<u8> = if b[i] == 10 { seq![10u8] } else { Seq::empty() };
        lemma_newline_count_concat(h, newlines(b, i + 1, j));
        assert(newline_count(seq![10u8], 1) == 0);
    } else {
        assert(newline_count(Seq::<u8>::empty(), 0) == 0);
    }
}

/// No newline in `b[i..j]`: counting from `i` or from `j` is the same.
proof fn lemma_newline_free(b: Seq<u8>, i: int, j: int)
    requires
        0 <= i <= j <= b.len(),
        forall|k: int| i <= k < j ==> b[k] != 10,
    ensures
        newline_count(b, i) == newline_count(b, j),
    decreases j - i,
{
    if i < j {
        lemma_newline_free(b, i + 1, j);
    }
}

/// Comments removed from `b[i..]` keep all its newlines but the last byte,
/// when that is a newline inside a block comment that is never closed.
proof fn lemma_comments_keep_newlines(b: Seq<u8>, i: int)
    requires
        0 <= i <= b.len(),
    ensures
        newline_count(b, i) == newline_count(strip_comments(b, i), 0) + (if ends_in_open_comment(b, i) && b.last()
            == 10 {
            1int
        } else {
            0int
        }),
    decreases b.len() - i,
{
    if i < b.len() {
        if b[i] == 47 && i + 1 < b.len() && b[i + 1] == 47 {
            lemma_line_end(b, i);
            let l = line_end(b, i);
            lemma_newline_free(b, i, l);
            lemma_comments_keep_newlines(b, l);
        } else if b[i] == 47 && i + 1 < b.len() && b[i + 1] == 42 {
            let e = block_end(b, i + 2);
            lemma_block_end(b, i + 2);
            lemma_block_end_stop(b, i + 2);
            assert(newline_count(b, i) == newline_count(b, i + 1));
            assert(newline_count(b, i + 1) == newline_count(b, i + 2));
            let tail = if e + 2 < b.len() {
                strip_comments(b, e + 2)
            } else {
                Seq::empty()
            };
            assert(strip_comments(b, i) == newlines(b, i + 2, e) + seq![32u8] + tail);
            lemma_newlines_count(b, i + 2, e);
            lemma_newline_count_concat(newlines(b, i + 2, e), seq![32u8]);
            lemma_newline_count_concat(newlines(b, i + 2, e) + seq![32u8], tail);
            assert(newline_count(seq![32u8], 0) == 0) by {
                assert(newline_count(seq![32u8], 1) == 0);
            }
            if e + 2 < b.len() {
                assert(newline_count(b, e) == newline_count(b, e + 1));
                assert(newline_count(b, e + 1) == newline_count(b, e + 2));
                lemma_comments_keep_newlines(b, e + 2);
            } else {
                assert(newline_count(Seq::<u8>::empty(), 0) == 0);
                if e + 1 < b.len() && b[e] == 42 && b[e + 1] == 47 {
                    assert(newline_count(b, e + 2) == 0);
                    assert(newline_count(b, e + 1) == 0);
                    assert(newline_count(b, e) == 0);
                } else if e < b.len() {
                    assert(e == b.len() - 1);
                    assert(newline_count(b, e + 1) == 0);
                    assert(b[e] == b.last());
                    assert(newline_count(b, e) == if b.last() == 10 { 1int } else { 0int });
                } else {
                    assert(i + 2 == b.len());
                    assert(b[b.len() - 1] == b[i + 1]);
                }
            }
        } else {
            lemma_comments_keep_newlines(b, i + 1);
            lemma_newline_count_concat(seq![b[i]], strip_comments(b, i + 1));
            assert(newline_count(seq![b[i]], 1) == 0);
        }
    }
}

/// Removing comments keeps every newline, so each line stays where it was;
/// the one exception is a text whose last byte is a newline inside a block
/// comment that is never closed, which loses that newline.
pub proof fn law_comments_keep_newlines(b: Seq<u8>)
    requires
        !(ends_in_open_comment(b, 0) && b.last() == 10),
    ensures
        newline_count(strip_comments(b, 0), 0) == newline_count(b, 0),
{
    lemma_comments_keep_newlines(b, 0);
}

// ---------------------------------------------------- continuations --

pub open spec fn matches_at(b: Seq<u8>, i: int, pat: Seq<u8>) -> bool {
    0 <= i && i + pat.len() <= b.len() && b.subrange(i, i + pat.len()) == pat
}

/// `b[i..]` with the non-overlapping occurrences of `pat`, found left to
/// right, removed.
pub open spec fn remove_all(b: Seq<u8>, pat: Seq<u8>, i: int) -> Seq<u8>
    decreases b.len() - i,
{
    if i < 0 || i >= b.len() {
        Seq::empty()
    } else if pat.len() > 0 && matches_at(b, i, pat) {
        remove_all(b, pat, i + pat.len())
    } else {
        seq![b[i]] + remove_all(b, pat, i + 1)
    }
}

/// Joins lines ended by a backslash.
pub open spec fn join_continuations(b: Seq<u8>) -> Seq<u8> {
    remove_all(remove_all(b, seq![92u8, 10u8], 0), seq![92u8, 13u8, 10u8], 0)
}

// ---------------------------------------------------------- defines --

/// A macro: `params` is `None` for an object-like macro.
pub struct MacroV {
    pub params: Option<Seq<Seq<u8>>>,
    pub body: Seq<u8>,
}

pub type MacrosV = Seq<(Seq<u8>, MacroV)>;

/// The definition recorded last under `name`.
pub open spec fn find_macro(m: MacrosV, name: Seq<u8>) -> Option<MacroV>
    decreases m.len(),
{
    if m.len() == 0 {
        None
    } else if m[m.len() - 1].0 == name {
        Some(m[m.len() - 1].1)
    } else {
        find_macro(m.subrange(0, m.len() - 1), name)
    }
}

/// The end of the spaces and tabs starting at `i`.
pub open spec fn blank_end(b: Seq<u8>, i: int) -> int
    decreases b.len() - i,
{
    if 0 <= i < b.len() && (b[i] == 32 || b[i] == 9) {
        blank_end(b, i + 1)
    } else {
        i
    }
}

/// The first `)` at or after `i` (or the end).
pub open spec fn close_paren(b: Seq<u8>, i: int) -> int
    decreases b.len() - i,
{
    if 0 <= i < b.len() && b[i] != 41 {
        close_paren(b, i + 1)
    } else {
        i
    }
}

/// The parameter names in `b[i..]`: the pieces between commas, trimmed; the
/// last piece only if it is not empty.
pub open spec fn split_params(b: Seq<u8>, i: int, cur: Seq<u8>, acc: Seq<Seq<u8>>) -> Seq<Seq<u8>>
    decreases b.len() - i,
{
    if i < 0 || i >= b.len() {
        if trim(cur).len() > 0 {
            acc.push(trim(cur))
        } else {
            acc
        }
    } else if b[i] == 44 {
        split_params(b, i + 1, Seq::empty(), acc.push(trim(cur)))
    } else {
        split_params(b, i + 1, cur.push(b[i]), acc)
    }
}

/// The name and macro defined by the text after `#define`. A `(` right after
/// the name makes it function-like; the parameter list is read through its
/// UTF-8 bytes.
pub open spec fn parse_define(d: Seq<u8>) -> Option<(Seq<u8>, MacroV)> {
    let s = blank_end(d, 0);
    let e = ident_end(d, s);
    if e == s {
        None
    } else if e < d.len() && d[e] == 40 {
        let c = close_paren(d, e + 1);
        let params = split_params(reencode(d.subrange(e + 1, c)), 0, Seq::empty(), Seq::empty());
        let j = if c < d.len() { c + 1 } else { c };
        Some((d.subrange(s, e), MacroV { params: Some(params), body: trim(d.subrange(j, d.len() as int)) }))
    } else {
        Some((d.subrange(s, e), MacroV { params: None, body: trim(d.subrange(e, d.len() as int)) }))
    }
}

proof fn lemma_blank_end_to(d: Seq<u8>, i: int, k: int)
    requires
        0 <= i <= k <= d.len(),
        forall|j: int| i <= j < k ==> d[j] == 32 || d[j] == 9,
        k < d.len() ==> d[k] != 32 && d[k] != 9,
    ensures
        blank_end(d, i) == k,
    decreases k - i,
{
    if i < k {
        lemma_blank_end_to(d, i + 1, k);
    }
}

proof fn lemma_ident_end_to(d: Seq<u8>, i: int, k: int)
    requires
        0 <= i <= k <= d.len(),
        forall|j: int| i <= j < k ==> is_ident_continue_byte(d[j]),
        k < d.len() ==> !is_ident_continue_byte(d[k]),
    ensures
        ident_end(d, i) == k,
    decreases k - i,
{
    if i < k {
        lemma_ident_end_to(d, i + 1, k);
    }
}

proof fn lemma_close_paren_to(d: Seq<u8>, i: int, k: int)
    requires
        0 <= i <= k < d.len(),
        forall|j: int| i <= j < k ==> d[j] != 41,
        d[k] == 41,
    ensures
        close_paren(d, i) == k,
    decreases k - i,
{
    if i < k {
        lemma_close_paren_to(d, i + 1, k);
    }
}

/// The text after `#define`: blanks, then a name, then the rest. When the
/// rest does not start with `(` (it is empty or starts with a blank or any
/// other character that cannot continue the name), the name is an
/// object-like macro whose body is the whole rest, trimmed, even when a `(`
/// comes after a blank. Only a `(` right after the name makes it
/// function-like: its parameters are the comma-separated names up to the
/// first `)`, and its body is what follows that `)`, trimmed.
pub proof fn law_define_form(pre: Seq<u8>, name: Seq<u8>, rest: Seq<u8>)
    requires
        forall|i: int| 0 <= i < pre.len() ==> pre[i] == 32 || pre[i] == 9,
        name.len() > 0,
        forall|i: int| 0 <= i < name.len() ==> is_ident_continue_byte(#[trigger] name[i]),
        rest.len() > 0 ==> !is_ident_continue_byte(rest[0]),
    ensures
        (rest.len() == 0 || rest[0] != 40) ==> parse_define(pre + name + rest) == Some(
            (name, MacroV { params: None, body: trim(rest) }),
        ),
        forall|ps: Seq<u8>, tail: Seq<u8>|
            rest == seq![40u8] + ps + seq![41u8] + tail && (forall|i: int| 0 <= i < ps.len() ==> ps[i] != 41)
                ==> parse_define(pre + name + rest) == Some(
                (
                    name,
                    MacroV {
                        params: Some(split_params(reencode(ps), 0, Seq::empty(), Seq::empty())),
                        body: trim(tail),
                    },
                ),
            ),
{
    let d = pre + name + rest;
    let s = pre.len() as int;
    let e = s + name.len();
    assert(d[s] == name[0]);
    lemma_blank_end_to(d, 0, s);
    assert forall|j: int| s <= j < e implies is_ident_continue_byte(d[j]) by {
        assert(d[j] == name[j - s]);
    }
    if e < d.len() {
        assert(d[e] == rest[0]);
    }
    lemma_ident_end_to(d, s, e);
    assert(d.subrange(s, e) =~= name);
    assert(d.subrange(e, d.len() as int) =~= rest);
    assert forall|ps: Seq<u8>, tail: Seq<u8>|
        rest == seq![40u8] + ps + seq![41u8] + tail && (forall|i: int| 0 <= i < ps.len() ==> ps[i] != 41)
            implies parse_define(pre + name + rest) == Some(
            (
                name,
                MacroV {
                    params: Some(split_params(reencode(ps), 0, Seq::empty(), Seq::empty())),
                    body: trim(tail),
                },
            ),
        ) by {
        let c = e + 1 + ps.len();
        assert(d[e] == 40);
        assert forall|j: int| e + 1 <= j < c implies d[j] != 41 by {
            assert(d[j] == rest[j - e]);
            assert(rest[j - e] == ps[j - e - 1]);
        }
        assert(d[c] == rest[c - e]);
        lemma_close_paren_to(d, e + 1, c);
        assert(d.subrange(e + 1, c) =~= ps);
        assert(d.subrange(c + 1, d.len() as int) =~= tail);
    }
}

/// One source line: a `#define` adds a macro, another directive is dropped,
/// any other line goes to the body followed by a newline.
pub open spec fn take_line(line: Seq<u8>, body: Seq<u8>, macros: MacrosV) -> (Seq<u8>, MacrosV) {
    let t = trim_start(line);
    if t.len() > 0 && t[0] == 35 {
        let rest = trim_start(t.subrange(1, t.len() as int));
        if matches_at(rest, 0, seq![100u8, 101u8, 102u8, 105u8, 110u8, 101u8]) {
            match parse_define(rest.subrange(6, rest.len() as int)) {
                Some(nm) => (body, macros.push(nm)),
                None => (body, macros),
            }
        } else {
            (body, macros)
        }
    } else {
        (body + line + seq![10u8], macros)
    }
}

/// The line starting at `i`: up to the next newline, without a `\r` before
/// that newline.
pub open spec fn line_at(b: Seq<u8>, i: int) -> Seq<u8> {
    let e = line_end(b, i);
    if e < b.len() && e > i && b[e - 1] == 13 {
        b.subrange(i, e - 1)
    } else {
        b.subrange(i, e)
    }
}

/// The lines from `i` on, split into the body and the macros.
pub open spec fn extract_defines(b: Seq<u8>, i: int, body: Seq<u8>, macros: MacrosV) -> (Seq<u8>, MacrosV)
    decreases b.len() - i,
{
    if i < 0 || i >= b.len() {
        (body, macros)
    } else {
        proof {
            lemma_line_end(b, i);
        }
        let next = take_line(line_at(b, i), body, macros);
        if line_end(b, i) + 1 < b.len() {
            extract_defines(b, line_end(b, i) + 1, next.0, next.1)
        } else {
            next
        }
    }
}

// -------------------------------------------------------- expansion --

/// How many macro entries are not being expanded.
pub open spec fn inactive(m: MacrosV, active: Seq<Seq<u8>>) -> nat
    decreases m.len(),
{
    if m.len() == 0 {
        0
    } else {
        inactive(m.subrange(0, m.len() - 1), active) + (if active.contains(m[m.len() - 1].0) { 0nat } else { 1nat })
    }
}

/// The end of the spaces, tabs and newlines starting at `i`.
pub open spec fn gap_end(b: Seq<u8>, i: int) -> int
    decreases b.len() - i,
{
    if 0 <= i < b.len() && (b[i] == 32 || b[i] == 9 || b[i] == 10) {
        gap_end(b, i + 1)
    } else {
        i
    }
}

/// The arguments of a macro call from `i` on, at parenthesis `depth`: split
/// at top-level commas and trimmed, with the position after the closing `)`;
/// `None` if the call is not closed.
pub open spec fn call_args(b: Seq<u8>, i: int, depth: int, cur: Seq<u8>, acc: Seq<Seq<u8>>) -> Option<(Seq<Seq<u8>>, int)>
    decreases b.len() - i,
{
    if i < 0 || i >= b.len() {
        if depth != 0 {
            None
        } else if trim(cur).len() > 0 || acc.len() > 0 {
            Some((acc.push(trim(cur)), i))
        } else {
            Some((acc, i))
        }
    } else if b[i] == 40 {
        call_args(b, i + 1, depth + 1, cur.push(b[i]), acc)
    } else if b[i] == 41 {
        if depth - 1 == 0 {
            if trim(cur).len() > 0 || acc.len() > 0 {
                Some((acc.push(trim(cur)), i + 1))
            } else {
                Some((acc, i + 1))
            }
        } else {
            call_args(b, i + 1, depth - 1, cur.push(b[i]), acc)
        }
    } else if b[i] == 44 && depth == 1 {
        call_args(b, i + 1, depth, Seq::empty(), acc.push(trim(cur)))
    } else {
        call_args(b, i + 1, depth, cur.push(b[i]), acc)
    }
}

/// The position of the first parameter named `id`.
pub open spec fn param_index(params: Seq<Seq<u8>>, id: Seq<u8>, k: int) -> Option<int>
    decreases params.len() - k,
{
    if k < 0 || k >= params.len() {
        None
    } else if params[k] == id {
        Some(k)
    } else {
        param_index(params, id, k + 1)
    }
}

/// `b[i..]` with each parameter name replaced by its argument (nothing if the
/// call has fewer arguments).
pub open spec fn substitute(b: Seq<u8>, i: int, params: Seq<Seq<u8>>, args: Seq<Seq<u8>>) -> Seq<u8>
    decreases b.len() - i,
{
    if i < 0 || i >= b.len() {
        Seq::empty()
    } else if is_ident_start_byte(b[i]) {
        let e = ident_end(b, i);
        proof {
            lemma_ident_end(b, i);
        }
        let id = b.subrange(i, e);
        (match param_index(params, id, 0) {
            Some(k) => if 0 <= k < args.len() {
                args[k]
            } else {
                Seq::empty()
            },
            None => id,
        }) + (if e > i {
            substitute(b, e, params, args)
        } else {
            Seq::empty()
        })
    } else {
        seq![b[i]] + substitute(b, i + 1, params, args)
    }
}

/// `b[i..]` with every macro that is not `active` expanded, recursively: an
/// object-like one wherever its name stands, a function-like one where a `(`
/// follows (possibly after blanks); arguments are expanded before they are
/// substituted, and the result is expanded again with the macro active.
pub open spec fn expand(b: Seq<u8>, i: int, m: MacrosV, active: Seq<Seq<u8>>) -> Seq<u8>
    decreases inactive(m, active), ascii_count(b), b.len() - i,
{
    if i < 0 || i >= b.len() {
        Seq::empty()
    } else if is_ident_start_byte(b[i]) {
        let e = ident_end(b, i);
        proof {
            lemma_ident_end(b, i);
        }
        let id = b.subrange(i, e);
        if e <= i {
            Seq::empty()
        } else {
            match find_macro(m, id) {
                Some(mac) => if active.contains(id) {
                    id + expand(b, e, m, active)
                } else {
                    proof {
                        lemma_inactive_insert(m, active, id);
                    }
                    match mac.params {
                        None => expand(reencode(mac.body), 0, m, active.push(id)) + expand(b, e, m, active),
                        Some(params) => {
                            let k = gap_end(b, e);
                            proof {
                                lemma_gap_end(b, e);
                            }
                            if k < b.len() && b[k] == 40 {
                                proof {
                                    lemma_call_args_end(b, k + 1, 1, Seq::empty(), Seq::empty());
                                }
                                match call_args(b, k + 1, 1, Seq::empty(), Seq::empty()) {
                                    Some((args, end)) => if end > i && ascii_count(b) > 0 && args_bounded(args, (ascii_count(b) - 1) as nat) {
                                        let sub = substitute(
                                            reencode(mac.body),
                                            0,
                                            params,
                                            expand_args(args, m, active, (ascii_count(b) - 1) as nat),
                                        );
                                        expand(reencode(sub), 0, m, active.push(id)) + expand(b, end, m, active)
                                    } else {
                                        Seq::empty()
                                    },
                                    None => id + expand(b, e, m, active),
                                }
                            } else {
                                id + expand(b, e, m, active)
                            }
                        },
                    }
                },
                None => id + expand(b, e, m, active),
            }
        }
    } else {
        seq![b[i]] + expand(b, i + 1, m, active)
    }
}

/// Every argument has fewer ASCII bytes than `bound`.
pub open spec fn args_bounded(args: Seq<Seq<u8>>, bound: nat) -> bool {
    forall|j: int| 0 <= j < args.len() ==> ascii_count(#[trigger] args[j]) < bound
}

/// The arguments, each expanded (read through its UTF-8 bytes).
pub open spec fn expand_args(args: Seq<Seq<u8>>, m: MacrosV, active: Seq<Seq<u8>>, bound: nat) -> Seq<Seq<u8>>
    decreases inactive(m, active), bound, args.len(),
{
    if args.len() == 0 || !args_bounded(args, bound) {
        Seq::empty()
    } else {
        let last = args[args.len() - 1];
        proof {
            lemma_reencode_ascii(last);
        }
        expand_args(args.subrange(0, args.len() - 1), m, active, bound).push(expand(reencode(last), 0, m, active))
    }
}

/// The fully macro-expanded source.
pub open spec fn preprocess_text(src: Seq<char>) -> Seq<char> {
    let b = join_continuations(strip_comments(vstd::utf8::encode_utf8(src), 0));
    let (body, macros) = extract_defines(b, 0, Seq::empty(), Seq::empty());
    latin1_text(expand(reencode(body), 0, macros, Seq::empty()))
}

// ------------------------------------------------------- plain text --

/// A character the preprocessor has nothing to do with: ASCII, and not `#`,
/// `/` or `\`.
pub open spec fn plain_char(c: char) -> bool {
    (c as u32) < 0x80 && c != '#' && c != '/' && c != '\\'
}

/// A text's lines (split at `\n`, a `\r` before the `\n` dropped), each
/// followed by one newline.
pub open spec fn text_lines(s: Seq<char>, i: int) -> Seq<char>
    decreases s.len() - i,
{
    if i < 0 || i >= s.len() {
        Seq::empty()
    } else {
        proof {
            crate::preset::parser::lemma_newline_at(s, i);
        }
        crate::preset::parser::line_from(s, i) + seq!['\n'] + (if crate::preset::parser::newline_at(s, i) + 1 < s.len() {
            text_lines(s, crate::preset::parser::newline_at(s, i) + 1)
        } else {
            Seq::empty()
        })
    }
}

/// The lines of `b[i..]`, each followed by one newline.
pub open spec fn bytes_lines(b: Seq<u8>, i: int) -> Seq<u8>
    decreases b.len() - i,
{
    if i < 0 || i >= b.len() {
        Seq::empty()
    } else {
        proof {
            lemma_line_end(b, i);
        }
        line_at(b, i) + seq![10u8] + (if line_end(b, i) + 1 < b.len() {
            bytes_lines(b, line_end(b, i) + 1)
        } else {
            Seq::empty()
        })
    }
}

proof fn lemma_encode_ascii(src: Seq<char>)
    requires
        forall|k: int| 0 <= k < src.len() ==> (src[k] as u32) < 0x80,
    ensures
        vstd::utf8::encode_utf8(src) == src.map_values(|c: char| (c as u32) as u8),
    decreases src.len(),
{
    if src.len() > 0 {
        let t = src.drop_first();
        assert forall|k: int| 0 <= k < t.len() implies (t[k] as u32) < 0x80 by {
            assert(t[k] == src[k + 1]);
        }
        lemma_encode_ascii(t);
        let v = src[0] as u32;
        assert(v < 0x80);
        assert(v & 0x7F == v) by (bit_vector)
            requires
                v < 0x80,
        ;
        assert((v as u8) as u32 == v);
        assert(vstd::utf8::encode_scalar(v) =~= seq![(src[0] as u32) as u8]);
        assert(src.map_values(|c: char| (c as u32) as u8) =~= seq![(src[0] as u32) as u8] + t.map_values(|c: char| (c as u32) as u8));
    }
}

proof fn lemma_char_eq(c: char, d: char)
    requires
        c as u32 == d as u32,
    ensures
        c == d,
{
    vstd::utf8::char_u32_cast(c, c as u32);
    vstd::utf8::char_u32_cast(d, d as u32);
}

proof fn lemma_strip_plain(b: Seq<u8>, i: int)
    requires
        0 <= i <= b.len(),
        forall|k: int| 0 <= k < b.len() ==> b[k] != 47,
    ensures
        strip_comments(b, i) == b.subrange(i, b.len() as int),
    decreases b.len() - i,
{
    if i < b.len() {
        lemma_strip_plain(b, i + 1);
        assert(seq![b[i]] + b.subrange(i + 1, b.len() as int) =~= b.subrange(i, b.len() as int));
    } else {
        assert(b.subrange(i, b.len() as int) =~= Seq::<u8>::empty());
    }
}

proof fn lemma_remove_plain(b: Seq<u8>, pat: Seq<u8>, i: int)
    requires
        0 <= i <= b.len(),
        pat.len() > 0,
        forall|k: int| 0 <= k < b.len() ==> b[k] != pat[0],
    ensures
        remove_all(b, pat, i) == b.subrange(i, b.len() as int),
    decreases b.len() - i,
{
    if i < b.len() {
        if matches_at(b, i, pat) {
            assert(b.subrange(i, i + pat.len())[0] == b[i]);
        }
        lemma_remove_plain(b, pat, i + 1);
        assert(seq![b[i]] + b.subrange(i + 1, b.len() as int) =~= b.subrange(i, b.len() as int));
    } else {
        assert(b.subrange(i, b.len() as int) =~= Seq::<u8>::empty());
    }
}

proof fn lemma_trim_start_from(x: Seq<u8>)
    ensures
        trim_start(x).len() > 0 ==> exists|k: int| 0 <= k < x.len() && trim_start(x)[0] == x[k],
    decreases x.len(),
{
    if x.len() > 0 && is_space_byte(x[0]) {
        let t = x.subrange(1, x.len() as int);
        lemma_trim_start_from(t);
        if trim_start(x).len() > 0 {
            let k = choose|k: int| 0 <= k < t.len() && trim_start(t)[0] == t[k];
            assert(x[k + 1] == t[k]);
        }
    } else if x.len() > 0 {
        assert(trim_start(x)[0] == x[0]);
    }
}

proof fn lemma_extract_plain(b: Seq<u8>, i: int, body: Seq<u8>)
    requires
        0 <= i,
        forall|k: int| 0 <= k < b.len() ==> b[k] != 35,
    ensures
        extract_defines(b, i, body, Seq::empty()) == (body + bytes_lines(b, i), Seq::<(Seq<u8>, MacroV)>::empty()),
    decreases b.len() - i,
{
    if i < b.len() {
        lemma_line_end(b, i);
        let line = line_at(b, i);
        lemma_trim_start_from(line);
        if trim_start(line).len() > 0 {
            let k = choose|k: int| 0 <= k < line.len() && trim_start(line)[0] == line[k];
            assert(line[k] == b[i + k]);
        }
        let body2 = body + line + seq![10u8];
        if line_end(b, i) + 1 < b.len() {
            lemma_extract_plain(b, line_end(b, i) + 1, body2);
            assert(body2 + bytes_lines(b, line_end(b, i) + 1) =~= body + bytes_lines(b, i));
        } else {
            assert(body2 =~= body + bytes_lines(b, i));
        }
    } else {
        assert(body + bytes_lines(b, i) =~= body);
    }
}

proof fn lemma_lines_ascii(b: Seq<u8>, i: int)
    requires
        0 <= i,
        forall|k: int| 0 <= k < b.len() ==> b[k] < 0x80,
    ensures
        forall|k: int| 0 <= k < bytes_lines(b, i).len() ==> bytes_lines(b, i)[k] < 0x80,
    decreases b.len() - i,
{
    if i < b.len() {
        lemma_line_end(b, i);
        let line = line_at(b, i);
        let rest = if line_end(b, i) + 1 < b.len() {
            bytes_lines(b, line_end(b, i) + 1)
        } else {
            Seq::empty()
        };
        if line_end(b, i) + 1 < b.len() {
            lemma_lines_ascii(b, line_end(b, i) + 1);
        }
        let x = bytes_lines(b, i);
        assert forall|k: int| 0 <= k < x.len() implies x[k] < 0x80 by {
            if k < line.len() {
                assert(x[k] == line[k]);
                assert(line[k] == b[i + k]);
            } else if k == line.len() {
                assert(x[k] == 10u8);
            } else {
                assert(x[k] == rest[k - line.len() - 1]);
            }
        }
    }
}

proof fn lemma_reencode_plain(x: Seq<u8>)
    requires
        forall|k: int| 0 <= k < x.len() ==> x[k] < 0x80,
    ensures
        reencode(x) == x,
    decreases x.len(),
{
    if x.len() > 0 {
        lemma_reencode_plain(x.subrange(0, x.len() - 1));
        assert(x.subrange(0, x.len() - 1) + seq![x[x.len() - 1]] =~= x);
    }
}

proof fn lemma_expand_none(x: Seq<u8>, i: int)
    requires
        0 <= i <= x.len(),
    ensures
        expand(x, i, Seq::empty(), Seq::empty()) == x.subrange(i, x.len() as int),
    decreases x.len() - i,
{
    if i < x.len() {
        if is_ident_start_byte(x[i]) {
            lemma_ident_end(x, i);
            let e = ident_end(x, i);
            assert(is_ident_continue_byte(x[i]));
            assert(e > i);
            lemma_expand_none(x, e);
            assert(x.subrange(i, e) + x.subrange(e, x.len() as int) =~= x.subrange(i, x.len() as int));
        } else {
            lemma_expand_none(x, i + 1);
            assert(seq![x[i]] + x.subrange(i + 1, x.len() as int) =~= x.subrange(i, x.len() as int));
        }
    } else {
        assert(x.subrange(i, x.len() as int) =~= Seq::<u8>::empty());
    }
}

proof fn lemma_newline_match(src: Seq<char>, b: Seq<u8>, i: int)
    requires
        0 <= i <= src.len(),
        b == src.map_values(|c: char| (c as u32) as u8),
        forall|k: int| 0 <= k < src.len() ==> (src[k] as u32) < 0x80,
    ensures
        line_end(b, i) == crate::preset::parser::newline_at(src, i),
    decreases src.len() - i,
{
    if i < src.len() {
        assert(b[i] == (src[i] as u32) as u8);
        assert((src[i] as u32) < 0x80);
        assert(((src[i] as u32) as u8) as u32 == src[i] as u32);
        if b[i] == 10 {
            lemma_char_eq(src[i], '\n');
        }
        assert((b[i] == 10) == (src[i] == '\n'));
        lemma_newline_match(src, b, i + 1);
    }
}

proof fn lemma_lines_text(src: Seq<char>, b: Seq<u8>, i: int)
    requires
        0 <= i,
        b == src.map_values(|c: char| (c as u32) as u8),
        forall|k: int| 0 <= k < src.len() ==> (src[k] as u32) < 0x80,
    ensures
        latin1_text(bytes_lines(b, i)) == text_lines(src, i),
    decreases src.len() - i,
{
    if i < src.len() {
        lemma_line_end(b, i);
        crate::preset::parser::lemma_newline_at(src, i);
        lemma_newline_match(src, b, i);
        let e = line_end(b, i);
        if e < b.len() && e > i {
            assert((src[e - 1] as u32) < 0x80);
            assert(((src[e - 1] as u32) as u8) as u32 == src[e - 1] as u32);
            if b[e - 1] == 13 {
                lemma_char_eq(src[e - 1], '\r');
            }
            assert((b[e - 1] == 13) == (src[e - 1] == '\r'));
        }
        let line = line_at(b, i);
        let cl = crate::preset::parser::line_from(src, i);
        assert(latin1_text(line) =~= cl) by {
            assert forall|k: int| 0 <= k < cl.len() implies latin1_text(line)[k] == cl[k] by {
                assert(line[k] == b[i + k]);
                assert(cl[k] == src[i + k]);
                assert((src[i + k] as u32) < 0x80);
                let x = (src[i + k] as u32) as u8;
                assert(x as u32 == src[i + k] as u32);
                assert((x as char) as u32 == x as u32);
                lemma_char_eq(x as char, src[i + k]);
            }
        }
        let rest = if e + 1 < b.len() {
            bytes_lines(b, e + 1)
        } else {
            Seq::empty()
        };
        if e + 1 < b.len() {
            lemma_lines_text(src, b, e + 1);
        }
        assert(latin1_text(line + seq![10u8] + rest) =~= latin1_text(line) + seq!['\n'] + latin1_text(rest));
    }
}

/// Text made only of ASCII characters other than `#`, `/` and `\\` has no
/// directive, comment, continuation or macro: it comes back as it was, each
/// of its lines followed by one newline.
pub proof fn law_plain_text_passes(src: Seq<char>)
    requires
        forall|k: int| 0 <= k < src.len() ==> plain_char(#[trigger] src[k]),
    ensures
        preprocess_text(src) == text_lines(src, 0),
{
    let b = src.map_values(|c: char| (c as u32) as u8);
    lemma_encode_ascii(src);
    assert forall|k: int| 0 <= k < b.len() implies b[k] < 0x80 && b[k] != 47 && b[k] != 92 && b[k] != 35 by {
        assert(plain_char(src[k]));
        assert(((src[k] as u32) as u8) as u32 == src[k] as u32);
        if b[k] == 47 {
            lemma_char_eq(src[k], '/');
        }
        if b[k] == 92 {
            lemma_char_eq(src[k], '\\');
        }
        if b[k] == 35 {
            lemma_char_eq(src[k], '#');
        }
    }
    lemma_strip_plain(b, 0);
    assert(b.subrange(0, b.len() as int) =~= b);
    lemma_remove_plain(b, seq![92u8, 10u8], 0);
    lemma_remove_plain(b, seq![92u8, 13u8, 10u8], 0);
    assert(join_continuations(strip_comments(b, 0)) == b);
    lemma_extract_plain(b, 0, Seq::empty());
    assert(Seq::<u8>::empty() + bytes_lines(b, 0) =~= bytes_lines(b, 0));
    let body = bytes_lines(b, 0);
    lemma_lines_ascii(b, 0);
    lemma_reencode_plain(body);
    lemma_expand_none(body, 0);
    assert(body.subrange(0, body.len() as int) =~= body);
    lemma_lines_text(src, b, 0);
}

// ------------------------------------------------------------ lemmas --

pub proof fn lemma_line_end(b: Seq<u8>, i: int)
    requires
        0 <= i <= b.len(),
    ensures
        i <= line_end(b, i) <= b.len(),
        forall|k: int| i <= k < line_end(b, i) ==> b[k] != 10,
        line_end(b, i) < b.len() ==> b[line_end(b, i)] == 10,
    decreases b.len() - i,
{
    if i < b.len() && b[i] != 10 {
        lemma_line_end(b, i + 1);
    }
}

pub proof fn lemma_block_end(b: Seq<u8>, i: int)
    requires
        0 <= i,
    ensures
        i <= block_end(b, i),
        block_end(b, i) <= (if i < b.len() { b.len() as int } else { i }),
    decreases b.len() - i,
{
    if i + 1 < b.len() && !(b[i] == 42 && b[i + 1] == 47) {
        lemma_block_end(b, i + 1);
    }
}

pub proof fn lemma_gap_end(b: Seq<u8>, i: int)
    requires
        0 <= i <= b.len(),
    ensures
        i <= gap_end(b, i) <= b.len(),
    decreases b.len() - i,
{
    if i < b.len() && (b[i] == 32 || b[i] == 9 || b[i] == 10) {
        lemma_gap_end(b, i + 1);
    }
}

pub proof fn lemma_call_args_end(b: Seq<u8>, i: int, depth: int, cur: Seq<u8>, acc: Seq<Seq<u8>>)
    requires
        0 <= i <= b.len(),
    ensures
        call_args(b, i, depth, cur, acc) matches Some((_, end)) ==> i <= end <= b.len(),
    decreases b.len() - i,
{
    if i < b.len() {
        if b[i] == 40 {
            lemma_call_args_end(b, i + 1, depth + 1, cur.push(b[i]), acc);
        } else if b[i] == 41 {
            if depth - 1 != 0 {
                lemma_call_args_end(b, i + 1, depth - 1, cur.push(b[i]), acc);
            }
        } else if b[i] == 44 && depth == 1 {
            lemma_call_args_end(b, i + 1, depth, Seq::empty(), acc.push(trim(cur)));
        } else {
            lemma_call_args_end(b, i + 1, depth, cur.push(b[i]), acc);
        }
    }
}

pub proof fn lemma_ident_end(b: Seq<u8>, i: int)
    requires
        0 <= i <= b.len(),
    ensures
        i <= ident_end(b, i) <= b.len(),
        forall|k: int| i <= k < ident_end(b, i) ==> is_ident_continue_byte(#[trigger] b[k]),
        ident_end(b, i) < b.len() ==> !is_ident_continue_byte(b[ident_end(b, i)]),
    decreases b.len() - i,
{
    if i < b.len() && is_ident_continue_byte(b[i]) {
        lemma_ident_end(b, i + 1);
    }
}

pub proof fn lemma_inactive_insert(m: MacrosV, active: Seq<Seq<u8>>, id: Seq<u8>)
    requires
        find_macro(m, id) is Some,
        !active.contains(id),
    ensures
        inactive(m, active.push(id)) < inactive(m, active),
    decreases m.len(),
{
    if m.len() > 0 {
        let p = m.subrange(0, m.len() - 1);
        let x = m[m.len() - 1].0;
        if x == id {
            lemma_inactive_mono(p, active, id);
            assert(active.push(id).contains(id)) by {
                assert(active.push(id)[active.len() as int] == id);
            }
        } else {
            lemma_inactive_insert(p, active, id);
            assert(active.push(id).contains(x) == active.contains(x)) by {
                if active.push(id).contains(x) {
                    let j = choose|j: int| 0 <= j < active.push(id).len() && active.push(id)[j] == x;
                    assert(j < active.len());
                    assert(active[j] == x);
                }
                if active.contains(x) {
                    let j = choose|j: int| 0 <= j < active.len() && active[j] == x;
                    assert(active.push(id)[j] == x);
                }
            }
        }
    }
}

pub proof fn lemma_inactive_mono(m: MacrosV, active: Seq<Seq<u8>>, id: Seq<u8>)
    ensures
        inactive(m, active.push(id)) <= inactive(m, active),
    decreases m.len(),
{
    if m.len() > 0 {
        let p = m.subrange(0, m.len() - 1);
        let x = m[m.len() - 1].0;
        lemma_inactive_mono(p, active, id);
        if active.contains(x) {
            let j = choose|j: int| 0 <= j < active.len() && active[j] == x;
            assert(active.push(id)[j] == x);
        }
    }
}

pub proof fn lemma_reencode_ascii(b: Seq<u8>)
    ensures
        ascii_count(reencode(b)) == ascii_count(b),
    decreases b.len(),
{
    if b.len() > 0 {
        let p = b.subrange(0, b.len() - 1);
        let c = b[b.len() - 1];
        lemma_reencode_ascii(p);
        lemma_ascii_concat(reencode(p), latin1_utf8(c));
        let u = latin1_utf8(c);
        reveal_with_fuel(ascii_count, 3);
        if c < 0x80 {
            assert(u.subrange(0, 0) =~= Seq::<u8>::empty());
            assert(ascii_count(u) == 1);
        } else {
            assert(u[0] >= 0x80 && u[1] >= 0x80);
            assert(u.subrange(0, 1).subrange(0, 0) =~= Seq::<u8>::empty());
            assert(u.subrange(0, 1).len() == 1);
            assert(ascii_count(u.subrange(0, 1)) == 0);
            assert(ascii_count(u) == 0);
        }
        assert(reencode(b) == reencode(p) + u);
    }
}

pub proof fn lemma_ascii_concat(a: Seq<u8>, b: Seq<u8>)
    ensures
        ascii_count(a + b) == ascii_count(a) + ascii_count(b),
    decreases b.len(),
{
    if b.len() == 0 {
        assert(a + b =~= a);
    } else {
        let p = b.subrange(0, b.len() - 1);
        lemma_ascii_concat(a, p);
        assert((a + b).subrange(0, (a + b).len() - 1) =~= a + p);
    }
}

// ------------------------------------------------------- executable --

fn copy_range(b: &Vec<u8>, s: usize, e: usize) -> (r: Vec<u8>)
    requires
        s <= e <= b.len(),
    ensures
        r@ == b@.subrange(s as int, e as int),
{
    let mut r: Vec<u8> = Vec::new();
    for i in s..e
        invariant
            s <= e <= b.len(),
            r@ == b@.subrange(s as int, i as int),
    {
        r.push(b[i]);
        assert(b@.subrange(s as int, i as int).push(b@[i as int]) =~= b@.subrange(s as int, i + 1));
    }
    r
}

fn append_range(out: &mut Vec<u8>, b: &Vec<u8>, s: usize, e: usize)
    requires
        s <= e <= b.len(),
    ensures
        final(out)@ == old(out)@ + b@.subrange(s as int, e as int),
{
    let ghost o = out@;
    for i in s..e
        invariant
            s <= e <= b.len(),
            out@ == o + b@.subrange(s as int, i as int),
    {
        out.push(b[i]);
        assert(b@.subrange(s as int, i as int).push(b@[i as int]) =~= b@.subrange(s as int, i + 1));
    }
}

fn append_all(out: &mut Vec<u8>, b: &Vec<u8>)
    ensures
        final(out)@ == old(out)@ + b@,
{
    append_range(out, b, 0, b.len());
    assert(b@.subrange(0, b@.len() as int) =~= b@);
}

fn space_byte(c: u8) -> (r: bool)
    ensures
        r == is_space_byte(c),
{
    (9 <= c && c <= 13) || c == 32 || c == 0x85 || c == 0xA0
}

fn is_ident_continue(c: u8) -> (r: bool)
    ensures
        r == is_ident_continue_byte(c),
{
    (65 <= c && c <= 90) || (97 <= c && c <= 122) || (48 <= c && c <= 57) || c == 95
}

fn is_ident_start(c: u8) -> (r: bool)
    ensures
        r == is_ident_start_byte(c),
{
    (65 <= c && c <= 90) || (97 <= c && c <= 122) || c == 95
}

/// The bounds of `trim(b[s..e])` within `b`.
fn trim_range(b: &Vec<u8>, s: usize, e: usize) -> (r: (usize, usize))
    requires
        s <= e <= b.len(),
    ensures
        s <= r.0 <= r.1 <= e,
        b@.subrange(r.0 as int, r.1 as int) == trim(b@.subrange(s as int, e as int)),
{
    let mut j = s;
    while j < e && space_byte(b[j])
        invariant
            s <= j <= e <= b.len(),
            trim_start(b@.subrange(s as int, e as int)) == trim_start(b@.subrange(j as int, e as int)),
        decreases e - j,
    {
        assert(b@.subrange(j as int, e as int).subrange(1, (e - j) as int) =~= b@.subrange(j + 1, e as int));
        j = j + 1;
    }
    let mut k = e;
    while k > j && space_byte(b[k - 1])
        invariant
            s <= j <= k <= e <= b.len(),
            trim_end(b@.subrange(j as int, e as int)) == trim_end(b@.subrange(j as int, k as int)),
        decreases k - j,
    {
        assert(b@.subrange(j as int, k as int).subrange(0, (k - j - 1) as int) =~= b@.subrange(j as int, k - 1));
        k = k - 1;
    }
    (j, k)
}

fn trimmed(v: &Vec<u8>) -> (r: Vec<u8>)
    ensures
        r@ == trim(v@),
{
    let (s, e) = trim_range(v, 0, v.len());
    assert(v@.subrange(0, v@.len() as int) =~= v@);
    copy_range(v, s, e)
}

fn bytes_of(s: &str) -> (r: Vec<u8>)
    ensures
        r@ == vstd::utf8::encode_utf8(s@),
{
    let b = s.as_bytes();
    let mut r: Vec<u8> = Vec::new();
    for i in 0..b.len()
        invariant
            r@ == b@.subrange(0, i as int),
    {
        r.push(b[i]);
        assert(b@.subrange(0, i as int).push(b@[i as int]) =~= b@.subrange(0, i + 1));
    }
    assert(b@.subrange(0, b@.len() as int) =~= b@);
    r
}

/// The UTF-8 bytes of text holding one Latin-1 character per byte of `b`.
fn reencode_bytes(b: &Vec<u8>) -> (r: Vec<u8>)
    ensures
        r@ == reencode(b@),
{
    let mut r: Vec<u8> = Vec::new();
    assert(b@.subrange(0, 0) =~= Seq::<u8>::empty());
    for i in 0..b.len()
        invariant
            r@ == reencode(b@.subrange(0, i as int)),
    {
        let c = b[i];
        assert(b@.subrange(0, i + 1).subrange(0, i as int) =~= b@.subrange(0, i as int));
        if c < 0x80 {
            r.push(c);
            assert(r@ =~= reencode(b@.subrange(0, i as int)) + latin1_utf8(c));
        } else {
            r.push((0xC0 + c / 64) as u8);
            r.push((0x80 + c % 64) as u8);
            assert(r@ =~= reencode(b@.subrange(0, i as int)) + latin1_utf8(c));
        }
    }
    assert(b@.subrange(0, b@.len() as int) =~= b@);
    r
}

fn line_end_at(b: &Vec<u8>, i: usize) -> (r: usize)
    requires
        i <= b.len(),
    ensures
        r == line_end(b@, i as int),
        i <= r <= b.len(),
        (i < b.len() && b@[i as int] != 10) ==> r > i,
{
    proof {
        lemma_line_end(b@, i as int);
    }
    let mut j = i;
    while j < b.len() && b[j] != 10
        invariant
            i <= j <= b.len(),
            line_end(b@, i as int) == line_end(b@, j as int),
        decreases b.len() - j,
    {
        j = j + 1;
    }
    j
}

fn block_end_at(b: &Vec<u8>, i: usize) -> (r: usize)
    requires
        i <= b.len(),
    ensures
        r == block_end(b@, i as int),
        i <= r <= b.len(),
{
    let mut j = i;
    while j < b.len() && j + 1 < b.len() && !(b[j] == 42 && b[j + 1] == 47)
        invariant
            i <= j <= b.len(),
            block_end(b@, i as int) == block_end(b@, j as int),
        decreases b.len() - j,
    {
        j = j + 1;
    }
    j
}

fn push_newlines(out: &mut Vec<u8>, b: &Vec<u8>, i: usize, j: usize)
    requires
        i <= j <= b.len(),
    ensures
        final(out)@ == old(out)@ + newlines(b@, i as int, j as int),
{
    let ghost o = out@;
    let mut k = i;
    assert(o + newlines(b@, i as int, j as int) == out@ + newlines(b@, k as int, j as int));
    while k < j
        invariant
            i <= k <= j <= b.len(),
            o + newlines(b@, i as int, j as int) == out@ + newlines(b@, k as int, j as int),
        decreases j - k,
    {
        if b[k] == 10 {
            out.push(10);
        }
        proof {
            let w = if b@[k as int] == 10 { seq![10u8] } else { Seq::<u8>::empty() };
            assert(newlines(b@, k as int, j as int) == w + newlines(b@, k + 1, j as int));
        }
        k = k + 1;
    }
    assert(newlines(b@, j as int, j as int) =~= Seq::<u8>::empty());
}

/// `//` and `/* */` comments removed (see `strip_comments`).
fn strip_comments_bytes(b: &Vec<u8>) -> (r: Vec<u8>)
    ensures
        r@ == strip_comments(b@, 0),
{
    let mut out: Vec<u8> = Vec::new();
    let mut i: usize = 0;
    while i < b.len()
        invariant
            i <= b.len(),
            strip_comments(b@, 0) == out@ + strip_comments(b@, i as int),
        decreases b.len() - i,
    {
        if b[i] == 47 && i + 1 < b.len() && b[i + 1] == 47 {
            i = line_end_at(b, i);
        } else if b[i] == 47 && i + 1 < b.len() && b[i + 1] == 42 {
            let e = block_end_at(b, i + 2);
            push_newlines(&mut out, b, i + 2, e);
            out.push(32);
            if b.len() - e > 2 {
                i = e + 2;
            } else {
                i = b.len();
            }
        } else {
            out.push(b[i]);
            i = i + 1;
        }
    }
    out
}

/// `b` with the non-overlapping occurrences of `pat` removed.
fn remove_pattern(b: &Vec<u8>, pat: &Vec<u8>) -> (r: Vec<u8>)
    requires
        pat.len() > 0,
    ensures
        r@ == remove_all(b@, pat@, 0),
{
    let mut out: Vec<u8> = Vec::new();
    let mut i: usize = 0;
    while i < b.len()
        invariant
            i <= b.len(),
            pat.len() > 0,
            remove_all(b@, pat@, 0) == out@ + remove_all(b@, pat@, i as int),
        decreases b.len() - i,
    {
        if matches_here(b, i, pat) {
            if b.len() - i > pat.len() {
                i = i + pat.len();
            } else {
                assert(remove_all(b@, pat@, (i + pat.len()) as int) =~= Seq::<u8>::empty());
                i = b.len();
            }
        } else {
            out.push(b[i]);
            i = i + 1;
        }
    }
    out
}

fn matches_here(b: &Vec<u8>, i: usize, pat: &Vec<u8>) -> (r: bool)
    requires
        i <= b.len(),
    ensures
        r == matches_at(b@, i as int, pat@),
{
    if b.len() - i < pat.len() {
        return false;
    }
    for k in 0..pat.len()
        invariant
            i + pat.len() <= b.len(),
            forall|j: int| 0 <= j < k ==> b@[i + j] == pat@[j],
    {
        if b[i + k] != pat[k] {
            assert(b@.subrange(i as int, i + pat.len())[k as int] != pat@[k as int]);
            return false;
        }
    }
    assert(b@.subrange(i as int, i + pat.len()) =~= pat@);
    true
}

/// A macro: `params` is `None` for an object-like macro.
pub struct Macro {
    pub params: Option<Vec<Vec<u8>>>,
    pub body: Vec<u8>,
}

pub open spec fn names_view(v: Seq<Vec<u8>>) -> Seq<Seq<u8>> {
    v.map_values(|x: Vec<u8>| x@)
}

impl View for Macro {
    type V = MacroV;

    open spec fn view(&self) -> MacroV {
        MacroV {
            params: match self.params {
                Some(p) => Some(names_view(p@)),
                None => None,
            },
            body: self.body@,
        }
    }
}

pub open spec fn macros_view(v: Seq<(Vec<u8>, Macro)>) -> MacrosV {
    v.map_values(|p: (Vec<u8>, Macro)| (p.0@, p.1@))
}

fn push_name(acc: &mut Vec<Vec<u8>>, t: Vec<u8>)
    ensures
        names_view(final(acc)@) == names_view(old(acc)@).push(t@),
{
    acc.push(t);
    assert(names_view(acc@) =~= names_view(old(acc)@).push(t@));
}

fn split_params_bytes(b: &Vec<u8>) -> (r: Vec<Vec<u8>>)
    ensures
        names_view(r@) == split_params(b@, 0, Seq::empty(), Seq::empty()),
{
    let mut acc: Vec<Vec<u8>> = Vec::new();
    let mut cur: Vec<u8> = Vec::new();
    let mut i: usize = 0;
    assert(names_view(acc@) =~= Seq::<Seq<u8>>::empty());
    assert(cur@ =~= Seq::<u8>::empty());
    while i < b.len()
        invariant
            i <= b.len(),
            split_params(b@, 0, Seq::empty(), Seq::empty()) == split_params(b@, i as int, cur@, names_view(acc@)),
        decreases b.len() - i,
    {
        if b[i] == 44 {
            let t = trimmed(&cur);
            push_name(&mut acc, t);
            cur = Vec::new();
            assert(cur@ =~= Seq::<u8>::empty());
        } else {
            cur.push(b[i]);
        }
        i = i + 1;
    }
    let t = trimmed(&cur);
    if t.len() > 0 {
        push_name(&mut acc, t);
    }
    acc
}

fn blank_end_at(b: &Vec<u8>, i: usize) -> (r: usize)
    requires
        i <= b.len(),
    ensures
        r == blank_end(b@, i as int),
        i <= r <= b.len(),
{
    let mut j = i;
    while j < b.len() && (b[j] == 32 || b[j] == 9)
        invariant
            i <= j <= b.len(),
            blank_end(b@, i as int) == blank_end(b@, j as int),
        decreases b.len() - j,
    {
        j = j + 1;
    }
    j
}

fn ident_end_at(b: &Vec<u8>, i: usize) -> (r: usize)
    requires
        i <= b.len(),
    ensures
        r == ident_end(b@, i as int),
        i <= r <= b.len(),
{
    let mut j = i;
    while j < b.len() && is_ident_continue(b[j])
        invariant
            i <= j <= b.len(),
            ident_end(b@, i as int) == ident_end(b@, j as int),
        decreases b.len() - j,
    {
        j = j + 1;
    }
    j
}

fn close_paren_at(b: &Vec<u8>, i: usize) -> (r: usize)
    requires
        i <= b.len(),
    ensures
        r == close_paren(b@, i as int),
        i <= r <= b.len(),
{
    let mut j = i;
    while j < b.len() && b[j] != 41
        invariant
            i <= j <= b.len(),
            close_paren(b@, i as int) == close_paren(b@, j as int),
        decreases b.len() - j,
    {
        j = j + 1;
    }
    j
}

fn trimmed_range(b: &Vec<u8>, s: usize, e: usize) -> (r: Vec<u8>)
    requires
        s <= e <= b.len(),
    ensures
        r@ == trim(b@.subrange(s as int, e as int)),
{
    let (x, y) = trim_range(b, s, e);
    copy_range(b, x, y)
}

/// The name and macro defined by the text after `#define`.
fn parse_define_bytes(d: &Vec<u8>) -> (r: Option<(Vec<u8>, Macro)>)
    ensures
        match r {
            Some((n, m)) => parse_define(d@) == Some((n@, m@)),
            None => parse_define(d@) is None,
        },
{
    let s = blank_end_at(d, 0);
    let e = ident_end_at(d, s);
    if e == s {
        return None;
    }
    let name = copy_range(d, s, e);
    if e < d.len() && d[e] == 40 {
        let c = close_paren_at(d, e + 1);
        let region = copy_range(d, e + 1, c);
        let params = split_params_bytes(&reencode_bytes(&region));
        let j = if c < d.len() { c + 1 } else { c };
        let body = trimmed_range(d, j, d.len());
        Some((name, Macro { params: Some(params), body }))
    } else {
        let body = trimmed_range(d, e, d.len());
        Some((name, Macro { params: None, body }))
    }
}

fn starts_define(b: &Vec<u8>, s: usize, e: usize) -> (r: bool)
    requires
        s <= e <= b.len(),
    ensures
        r == matches_at(b@.subrange(s as int, e as int), 0, seq![100u8, 101u8, 102u8, 105u8, 110u8, 101u8]),
{
    let ghost t = b@.subrange(s as int, e as int);
    if e - s < 6 {
        return false;
    }
    let ok = b[s] == 100 && b[s + 1] == 101 && b[s + 2] == 102 && b[s + 3] == 105 && b[s + 4] == 110 && b[s + 5] == 101;
    assert(ok == (t.subrange(0, 6) =~= seq![100u8, 101u8, 102u8, 105u8, 110u8, 101u8]));
    ok
}

/// One source line (`b[s..e]`): a `#define` adds a macro, another directive
/// is dropped, any other line goes to the body.
fn take_line_bytes(b: &Vec<u8>, s: usize, e: usize, body: &mut Vec<u8>, macros: &mut Vec<(Vec<u8>, Macro)>)
    requires
        s <= e <= b.len(),
    ensures
        (final(body)@, macros_view(final(macros)@)) == take_line(b@.subrange(s as int, e as int), old(body)@, macros_view(old(macros)@)),
{
    let ghost line = b@.subrange(s as int, e as int);
    // The start of the line without leading white space.
    let mut ts = s;
    while ts < e && space_byte(b[ts])
        invariant
            s <= ts <= e <= b.len(),
            trim_start(line) == trim_start(b@.subrange(ts as int, e as int)),
        decreases e - ts,
    {
        assert(b@.subrange(ts as int, e as int).subrange(1, (e - ts) as int) =~= b@.subrange(ts + 1, e as int));
        ts = ts + 1;
    }
    assert(trim_start(line) == b@.subrange(ts as int, e as int));
    if ts < e && b[ts] == 35 {
        let ghost t = b@.subrange(ts as int, e as int);
        assert(t.subrange(1, t.len() as int) =~= b@.subrange(ts + 1, e as int));
        let mut rs = ts + 1;
        while rs < e && space_byte(b[rs])
            invariant
                ts + 1 <= rs <= e <= b.len(),
                trim_start(b@.subrange(ts + 1, e as int)) == trim_start(b@.subrange(rs as int, e as int)),
            decreases e - rs,
        {
            assert(b@.subrange(rs as int, e as int).subrange(1, (e - rs) as int) =~= b@.subrange(rs + 1, e as int));
            rs = rs + 1;
        }
        let ghost rest = b@.subrange(rs as int, e as int);
        assert(trim_start(t.subrange(1, t.len() as int)) == rest);
        if starts_define(b, rs, e) {
            let def = copy_range(b, rs + 6, e);
            assert(def@ =~= rest.subrange(6, rest.len() as int));
            match parse_define_bytes(&def) {
                Some(nm) => {
                    let ghost v = nm.0@;
                    let ghost mv = nm.1@;
                    macros.push(nm);
                    assert(macros_view(macros@) =~= macros_view(old(macros)@).push((v, mv)));
                },
                None => {},
            }
        }
    } else {
        append_range(body, b, s, e);
        body.push(10);
        assert(body@ =~= old(body)@ + line + seq![10u8]);
    }
}

/// Splits the lines into the body and the macros.
fn extract_defines_bytes(b: &Vec<u8>) -> (r: (Vec<u8>, Vec<(Vec<u8>, Macro)>))
    ensures
        (r.0@, macros_view(r.1@)) == extract_defines(b@, 0, Seq::empty(), Seq::empty()),
{
    let mut body: Vec<u8> = Vec::new();
    let mut macros: Vec<(Vec<u8>, Macro)> = Vec::new();
    let mut i: usize = 0;
    assert(body@ =~= Seq::<u8>::empty());
    assert(macros_view(macros@) =~= Seq::<(Seq<u8>, MacroV)>::empty());
    while i < b.len()
        invariant
            i <= b.len(),
            extract_defines(b@, 0, Seq::empty(), Seq::empty()) == extract_defines(b@, i as int, body@, macros_view(macros@)),
        decreases b.len() - i,
    {
        let e = line_end_at(b, i);
        let le = if e < b.len() && e > i && b[e - 1] == 13 { e - 1 } else { e };
        take_line_bytes(b, i, le, &mut body, &mut macros);
        if e < b.len() && e + 1 < b.len() {
            i = e + 1;
        } else {
            i = b.len();
        }
    }
    (body, macros)
}

// ------------------------------------------------- expansion proofs --

proof fn lemma_ascii_sub(b: Seq<u8>, lo: int, s: int, i: int)
    requires
        0 <= lo <= s <= i <= b.len(),
    ensures
        ascii_count(b.subrange(s, i)) <= ascii_count(b.subrange(lo, b.len() as int)),
{
    lemma_ascii_concat(b.subrange(lo, s), b.subrange(s, i));
    lemma_ascii_concat(b.subrange(lo, s) + b.subrange(s, i), b.subrange(i, b.len() as int));
    assert(b.subrange(lo, s) + b.subrange(s, i) + b.subrange(i, b.len() as int) =~= b.subrange(lo, b.len() as int));
}

proof fn lemma_trim_ascii(x: Seq<u8>)
    ensures
        ascii_count(trim(x)) <= ascii_count(x),
{
    lemma_trim_start_ascii(x);
    lemma_trim_end_ascii(trim_start(x));
}

proof fn lemma_trim_start_ascii(x: Seq<u8>)
    ensures
        ascii_count(trim_start(x)) <= ascii_count(x),
    decreases x.len(),
{
    if x.len() > 0 && is_space_byte(x[0]) {
        let r = x.subrange(1, x.len() as int);
        lemma_trim_start_ascii(r);
        lemma_ascii_concat(seq![x[0]], r);
        assert(seq![x[0]] + r =~= x);
    }
}

proof fn lemma_trim_end_ascii(x: Seq<u8>)
    ensures
        ascii_count(trim_end(x)) <= ascii_count(x),
    decreases x.len(),
{
    if x.len() > 0 && is_space_byte(x[x.len() - 1]) {
        lemma_trim_end_ascii(x.subrange(0, x.len() - 1));
    }
}

proof fn lemma_call_args_ascii(b: Seq<u8>, i: int, depth: int, cur: Seq<u8>, acc: Seq<Seq<u8>>, lo: int, s: int)
    requires
        0 <= lo <= s <= i <= b.len(),
        cur == b.subrange(s, i),
        forall|j: int| 0 <= j < acc.len() ==> ascii_count(#[trigger] acc[j]) <= ascii_count(b.subrange(lo, b.len() as int)),
    ensures
        call_args(b, i, depth, cur, acc) matches Some((args, _)) ==> forall|j: int|
            0 <= j < args.len() ==> ascii_count(#[trigger] args[j]) <= ascii_count(b.subrange(lo, b.len() as int)),
    decreases b.len() - i,
{
    let bound = ascii_count(b.subrange(lo, b.len() as int));
    lemma_ascii_sub(b, lo, s, i);
    lemma_trim_ascii(cur);
    let acc2 = acc.push(trim(cur));
    assert forall|j: int| 0 <= j < acc2.len() implies ascii_count(#[trigger] acc2[j]) <= bound by {
        if j < acc.len() {
            assert(acc2[j] == acc[j]);
        }
    }
    if i < b.len() {
        let next = cur.push(b[i]);
        assert(next =~= b.subrange(s, i + 1));
        if b[i] == 40 {
            lemma_call_args_ascii(b, i + 1, depth + 1, next, acc, lo, s);
        } else if b[i] == 41 {
            if depth - 1 != 0 {
                lemma_call_args_ascii(b, i + 1, depth - 1, next, acc, lo, s);
            }
        } else if b[i] == 44 && depth == 1 {
            assert(Seq::<u8>::empty() =~= b.subrange(i + 1, i + 1));
            lemma_call_args_ascii(b, i + 1, depth, Seq::empty(), acc2, lo, i + 1);
        } else {
            lemma_call_args_ascii(b, i + 1, depth, next, acc, lo, s);
        }
    }
}

proof fn lemma_ascii_two(b: Seq<u8>, i: int, k: int)
    requires
        0 <= i < k < b.len(),
        b[i] < 0x80,
        b[k] < 0x80,
    ensures
        ascii_count(b) >= ascii_count(b.subrange(k + 1, b.len() as int)) + 2,
{
    reveal_with_fuel(ascii_count, 2);
    let p1 = b.subrange(0, i);
    let x = b.subrange(i, i + 1);
    let p2 = b.subrange(i + 1, k);
    let y = b.subrange(k, k + 1);
    let p3 = b.subrange(k + 1, b.len() as int);
    assert(x.subrange(0, 0) =~= Seq::<u8>::empty());
    assert(y.subrange(0, 0) =~= Seq::<u8>::empty());
    assert(ascii_count(x) == 1);
    assert(ascii_count(y) == 1);
    lemma_ascii_concat(p1, x);
    lemma_ascii_concat(p1 + x, p2);
    lemma_ascii_concat(p1 + x + p2, y);
    lemma_ascii_concat(p1 + x + p2 + y, p3);
    assert(p1 + x + p2 + y + p3 =~= b);
}

// -------------------------------------------------- expansion (exec) --

fn gap_end_at(b: &Vec<u8>, i: usize) -> (r: usize)
    requires
        i <= b.len(),
    ensures
        r == gap_end(b@, i as int),
        i <= r <= b.len(),
{
    let mut j = i;
    while j < b.len() && (b[j] == 32 || b[j] == 9 || b[j] == 10)
        invariant
            i <= j <= b.len(),
            gap_end(b@, i as int) == gap_end(b@, j as int),
        decreases b.len() - j,
    {
        j = j + 1;
    }
    j
}

/// The arguments of a macro call whose text starts at `start` (after `(`).
fn call_args_bytes(b: &Vec<u8>, start: usize) -> (r: Option<(Vec<Vec<u8>>, usize)>)
    requires
        1 <= start <= b.len(),
    ensures
        match r {
            Some((a, end)) => call_args(b@, start as int, 1, Seq::empty(), Seq::empty()) == Some((names_view(a@), end as int)),
            None => call_args(b@, start as int, 1, Seq::empty(), Seq::empty()) is None,
        },
{
    let mut acc: Vec<Vec<u8>> = Vec::new();
    let mut cur: Vec<u8> = Vec::new();
    let mut depth: usize = 1;
    let mut i = start;
    assert(names_view(acc@) =~= Seq::<Seq<u8>>::empty());
    assert(cur@ =~= Seq::<u8>::empty());
    while i < b.len()
        invariant
            1 <= start <= i <= b.len(),
            1 <= depth <= i - start + 1,
            call_args(b@, start as int, 1, Seq::empty(), Seq::empty()) == call_args(b@, i as int, depth as int, cur@, names_view(acc@)),
        decreases b.len() - i,
    {
        let c = b[i];
        if c == 40 {
            depth = depth + 1;
            cur.push(c);
        } else if c == 41 {
            if depth - 1 == 0 {
                let t = trimmed(&cur);
                if t.len() > 0 || acc.len() > 0 {
                    push_name(&mut acc, t);
                }
                return Some((acc, i + 1));
            }
            depth = depth - 1;
            cur.push(c);
        } else if c == 44 && depth == 1 {
            let t = trimmed(&cur);
            push_name(&mut acc, t);
            cur = Vec::new();
            assert(cur@ =~= Seq::<u8>::empty());
        } else {
            cur.push(c);
        }
        i = i + 1;
    }
    if depth != 0 {
        return None;
    }
    None
}

fn param_position(params: &Vec<Vec<u8>>, id: &Vec<u8>) -> (r: Option<usize>)
    ensures
        match r {
            Some(k) => param_index(names_view(params@), id@, 0) == Some(k as int),
            None => param_index(names_view(params@), id@, 0) is None,
        },
{
    let ghost pv = names_view(params@);
    for k in 0..params.len()
        invariant
            pv == names_view(params@),
            param_index(pv, id@, 0) == param_index(pv, id@, k as int),
    {
        if bytes_eq(&params[k], id) {
            return Some(k);
        }
    }
    None
}

fn bytes_eq(x: &Vec<u8>, y: &Vec<u8>) -> (r: bool)
    ensures
        r == (x@ == y@),
{
    if x.len() != y.len() {
        return false;
    }
    for i in 0..x.len()
        invariant
            x@.len() == y@.len(),
            forall|j: int| 0 <= j < i ==> x@[j] == y@[j],
    {
        if x[i] != y[i] {
            return false;
        }
    }
    assert(x@ =~= y@);
    true
}

/// `b` with each parameter name replaced by its argument.
fn substitute_bytes(b: &Vec<u8>, params: &Vec<Vec<u8>>, args: &Vec<Vec<u8>>) -> (r: Vec<u8>)
    ensures
        r@ == substitute(b@, 0, names_view(params@), names_view(args@)),
{
    let ghost pv = names_view(params@);
    let ghost av = names_view(args@);
    let mut out: Vec<u8> = Vec::new();
    let mut i: usize = 0;
    while i < b.len()
        invariant
            i <= b.len(),
            pv == names_view(params@),
            av == names_view(args@),
            substitute(b@, 0, pv, av) == out@ + substitute(b@, i as int, pv, av),
        decreases b.len() - i,
    {
        if is_ident_start(b[i]) {
            let e = ident_end_at(b, i);
            proof {
                lemma_ident_end(b@, i as int);
            }
            let id = copy_range(b, i, e);
            match param_position(params, &id) {
                Some(k) => {
                    if k < args.len() {
                        append_all(&mut out, &args[k]);
                    }
                },
                None => append_all(&mut out, &id),
            }
            i = e;
        } else {
            out.push(b[i]);
            i = i + 1;
        }
    }
    out
}

fn find_macro_index(m: &Vec<(Vec<u8>, Macro)>, id: &Vec<u8>) -> (r: Option<usize>)
    ensures
        match r {
            Some(k) => k < m.len() && find_macro(macros_view(m@), id@) == Some(m@[k as int].1@),
            None => find_macro(macros_view(m@), id@) is None,
        },
{
    let ghost v = macros_view(m@);
    let mut i = m.len();
    assert(v.subrange(0, i as int) =~= v);
    while i > 0
        invariant
            i <= m.len(),
            v == macros_view(m@),
            find_macro(v, id@) == find_macro(v.subrange(0, i as int), id@),
        decreases i,
    {
        assert(v.subrange(0, i as int).subrange(0, i - 1) =~= v.subrange(0, i - 1));
        if bytes_eq(&m[i - 1].0, id) {
            return Some(i - 1);
        }
        i = i - 1;
    }
    None
}

fn is_active(active: &Vec<Vec<u8>>, id: &Vec<u8>) -> (r: bool)
    ensures
        r == names_view(active@).contains(id@),
{
    let ghost av = names_view(active@);
    for k in 0..active.len()
        invariant
            av == names_view(active@),
            forall|j: int| 0 <= j < k ==> av[j] != id@,
    {
        if bytes_eq(&active[k], id) {
            assert(av[k as int] == id@);
            return true;
        }
    }
    false
}

/// `b` with every macro that is not active expanded (see `expand`).
fn expand_bytes(b: &Vec<u8>, m: &Vec<(Vec<u8>, Macro)>, active: &mut Vec<Vec<u8>>) -> (r: Vec<u8>)
    ensures
        r@ == expand(b@, 0, macros_view(m@), names_view(old(active)@)),
        final(active)@ == old(active)@,
    decreases inactive(macros_view(m@), names_view(old(active)@)), ascii_count(b@),
{
    let ghost mv = macros_view(m@);
    let ghost av = names_view(active@);
    let mut out: Vec<u8> = Vec::new();
    let mut i: usize = 0;
    while i < b.len()
        invariant
            i <= b.len(),
            mv == macros_view(m@),
            av == names_view(active@),
            active@ == old(active)@,
            expand(b@, 0, mv, av) == out@ + expand(b@, i as int, mv, av),
        decreases b.len() - i,
    {
        if !is_ident_start(b[i]) {
            out.push(b[i]);
            i = i + 1;
            continue;
        }
        let e = ident_end_at(b, i);
        proof {
            lemma_ident_end(b@, i as int);
        }
        let id = copy_range(b, i, e);
        let found = find_macro_index(m, &id);
        let idx = match found {
            Some(k) => k,
            None => {
                append_all(&mut out, &id);
                i = e;
                continue;
            },
        };
        if is_active(active, &id) {
            append_all(&mut out, &id);
            i = e;
            continue;
        }
        proof {
            lemma_inactive_insert(mv, av, id@);
        }
        let mac = &m[idx].1;
        match &mac.params {
            None => {
                let body = reencode_bytes(&mac.body);
                let ghost id_v = id@;
                active.push(id);
                assert(names_view(active@) =~= av.push(id_v));
                let x = expand_bytes(&body, m, active);
                active.pop();
                assert(active@ =~= old(active)@);
                append_all(&mut out, &x);
                i = e;
            },
            Some(params) => {
                let k = gap_end_at(b, e);
                if !(k < b.len() && b[k] == 40) {
                    append_all(&mut out, &id);
                    i = e;
                    continue;
                }
                proof {
                    lemma_gap_end(b@, e as int);
                    lemma_call_args_end(b@, k + 1, 1, Seq::empty(), Seq::empty());
                }
                let (args, end) = match call_args_bytes(b, k + 1) {
                    Some(x) => x,
                    None => {
                        append_all(&mut out, &id);
                        i = e;
                        continue;
                    },
                };
                let ghost argsv = names_view(args@);
                let ghost bound = (ascii_count(b@) - 1) as nat;
                proof {
                    assert(Seq::<u8>::empty() =~= b@.subrange(k + 1, k + 1));
                    lemma_call_args_ascii(b@, k + 1, 1, Seq::empty(), Seq::empty(), k + 1, k + 1);
                    lemma_ascii_two(b@, i as int, k as int);
                }
                // The arguments, each expanded.
                let mut ex: Vec<Vec<u8>> = Vec::new();
                assert(argsv.take(0) =~= Seq::<Seq<u8>>::empty());
                assert(names_view(ex@) =~= Seq::<Seq<u8>>::empty());
                for j in 0..args.len()
                    invariant
                        argsv == names_view(args@),
                        args_bounded(argsv, bound),
                        bound < ascii_count(b@),
                        mv == macros_view(m@),
                        av == names_view(active@),
                        active@ == old(active)@,
                        names_view(ex@) == expand_args(argsv.take(j as int), mv, av, bound),
                {
                    let ghost pre = argsv.take(j as int);
                    assert(argsv.take(j + 1).subrange(0, j as int) =~= pre);
                    assert(args_bounded(argsv.take(j + 1), bound)) by {
                        assert forall|q: int| 0 <= q < argsv.take(j + 1).len() implies ascii_count(#[trigger] argsv.take(j + 1)[q]) < bound by {
                            assert(argsv.take(j + 1)[q] == argsv[q]);
                        }
                    }
                    let ra = reencode_bytes(&args[j]);
                    proof {
                        lemma_reencode_ascii(args@[j as int]@);
                        assert(args@[j as int]@ == argsv[j as int]);
                        assert(ascii_count(argsv[j as int]) < bound);
                        assert(ascii_count(ra@) < ascii_count(b@));
                    }
                    let x = expand_bytes(&ra, m, active);
                    push_name(&mut ex, x);
                }
                assert(argsv.take(args.len() as int) =~= argsv);
                let body = reencode_bytes(&mac.body);
                let sub = substitute_bytes(&body, params, &ex);
                let rsub = reencode_bytes(&sub);
                let ghost id_v = id@;
                active.push(id);
                assert(names_view(active@) =~= av.push(id_v));
                let x = expand_bytes(&rsub, m, active);
                active.pop();
                assert(active@ =~= old(active)@);
                append_all(&mut out, &x);
                i = end;
            },
        }
    }
    out
}

/// Runs the preprocessor: strips comments, joins line continuations, removes
/// directive lines and expands the `#define` macros.
pub fn preprocess(src: &str) -> (r: String)
    ensures
        r@ == preprocess_text(src@),
{
    let b0 = bytes_of(src);
    let b1 = strip_comments_bytes(&b0);
    let mut p1: Vec<u8> = Vec::new();
    p1.push(92);
    p1.push(10);
    assert(p1@ =~= seq![92u8, 10u8]);
    let mut p2: Vec<u8> = Vec::new();
    p2.push(92);
    p2.push(13);
    p2.push(10);
    assert(p2@ =~= seq![92u8, 13u8, 10u8]);
    let b2 = remove_pattern(&remove_pattern(&b1, &p1), &p2);
    let (body, macros) = extract_defines_bytes(&b2);
    let mut active: Vec<Vec<u8>> = Vec::new();
    assert(names_view(active@) =~= Seq::<Seq<u8>>::empty());
    let out = expand_bytes(&reencode_bytes(&body), &macros, &mut active);
    let mut r = String::new();
    for i in 0..out.len()
        invariant
            r@ == latin1_text(out@.take(i as int)),
    {
        push_char(&mut r, out[i] as char);
        assert(latin1_text(out@.take(i + 1)) =~= latin1_text(out@.take(i as int)).push(out@[i as int] as char));
    }
    assert(out@.take(out.len() as int) =~= out@);
    r
}

} // verus!
