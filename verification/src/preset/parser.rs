//! The `.milk` (INI-like) preset file parser.
//!
//! Each line is `key<delim>value` where `<delim>` is the first space or `=`.
//! Keys are lowercased; the first occurrence of a key wins. Multi-line code
//! blocks are stored as numbered keys (`per_frame_1`, `per_frame_2`, …) and
//! reassembled by [`PresetFile::get_code`].

use vstd::prelude::*;
use vstd::set_lib::{set_int_range, lemma_int_range, lemma_map_size, lemma_len_subset};
use crate::text::{push_char, push_str, push_nat, str_chars, nat_text, lower_ascii, lower_char, ascii_lower};

verus! {

/// Inputs larger than this many bytes are rejected.
pub const MAX_FILE_SIZE: usize = 33554432;

// -------------------------------------------------------------- text --

/// `char::is_whitespace`: the Unicode `White_Space` characters.
pub open spec fn is_space(c: char) -> bool {
    ('\u{9}' <= c && c <= '\u{d}') || c == ' ' || c == '\u{85}' || c == '\u{a0}' || c == '\u{1680}' || ('\u{2000}' <= c
        && c <= '\u{200a}') || c == '\u{2028}' || c == '\u{2029}' || c == '\u{202f}' || c == '\u{205f}' || c == '\u{3000}'
}

pub open spec fn trim_start_chars(s: Seq<char>) -> Seq<char>
    decreases s.len(),
{
    if s.len() > 0 && is_space(s[0]) {
        trim_start_chars(s.subrange(1, s.len() as int))
    } else {
        s
    }
}

pub open spec fn trim_end_chars(s: Seq<char>) -> Seq<char>
    decreases s.len(),
{
    if s.len() > 0 && is_space(s[s.len() - 1]) {
        trim_end_chars(s.subrange(0, s.len() - 1))
    } else {
        s
    }
}

/// The first newline at or after `i` (or the end).
pub open spec fn newline_at(s: Seq<char>, i: int) -> int
    decreases s.len() - i,
{
    if 0 <= i < s.len() && s[i] != '\n' {
        newline_at(s, i + 1)
    } else {
        i
    }
}

/// The line starting at `i`, without its `\n` or `\r\n` ending.
pub open spec fn line_from(s: Seq<char>, i: int) -> Seq<char> {
    let e = newline_at(s, i);
    if e < s.len() && e > i && s[e - 1] == '\r' {
        s.subrange(i, e - 1)
    } else {
        s.subrange(i, e)
    }
}

pub proof fn lemma_newline_at(s: Seq<char>, i: int)
    requires
        0 <= i <= s.len(),
    ensures
        i <= newline_at(s, i) <= s.len(),
        newline_at(s, i) < s.len() ==> s[newline_at(s, i)] == '\n',
    decreases s.len() - i,
{
    if i < s.len() && s[i] != '\n' {
        lemma_newline_at(s, i + 1);
    }
}

pub proof fn lemma_delim_at(s: Seq<char>, i: int)
    requires
        0 <= i <= s.len(),
    ensures
        i <= delim_at(s, i) <= s.len(),
    decreases s.len() - i,
{
    if i < s.len() && s[i] != ' ' && s[i] != '=' {
        lemma_delim_at(s, i + 1);
    }
}

/// The position of the first space or `=`.
pub open spec fn delim_at(s: Seq<char>, i: int) -> int
    decreases s.len() - i,
{
    if 0 <= i < s.len() && s[i] != ' ' && s[i] != '=' {
        delim_at(s, i + 1)
    } else {
        i
    }
}

/// The key (lowercased) and value of a line, if it has a delimiter that is
/// not its first character.
pub open spec fn line_entry(line: Seq<char>) -> Option<(Seq<char>, Seq<char>)> {
    let d = delim_at(line, 0);
    if d >= line.len() || d == 0 {
        None
    } else {
        Some((lower_ascii(line.subrange(0, d)), line.subrange(d + 1, line.len() as int)))
    }
}

// ----------------------------------------------------------- entries --

pub open spec fn has_key(e: Seq<(Seq<char>, Seq<char>)>, k: Seq<char>) -> bool {
    exists|i: int| 0 <= i < e.len() && #[trigger] e[i].0 == k
}

/// The value stored under `k`, if any.
pub open spec fn lookup(e: Seq<(Seq<char>, Seq<char>)>, k: Seq<char>) -> Option<Seq<char>> {
    if has_key(e, k) {
        Some(e[choose|i: int| 0 <= i < e.len() && #[trigger] e[i].0 == k].1)
    } else {
        None
    }
}

/// Keys occur at most once.
pub open spec fn unique_keys(e: Seq<(Seq<char>, Seq<char>)>) -> bool {
    forall|i: int, j: int| 0 <= i < e.len() && 0 <= j < e.len() && i != j ==> e[i].0 != e[j].0
}

/// The entries after reading the lines from `i` on into `e`: a key already
/// present keeps its value.
pub open spec fn read_lines(s: Seq<char>, i: int, e: Seq<(Seq<char>, Seq<char>)>) -> Seq<(Seq<char>, Seq<char>)>
    decreases s.len() - i,
{
    if i < 0 || i >= s.len() {
        e
    } else {
        let e2 = match line_entry(line_from(s, i)) {
            Some((k, v)) => if has_key(e, k) {
                e
            } else {
                e.push((k, v))
            },
            None => e,
        };
        proof {
            lemma_newline_at(s, i);
        }
        if newline_at(s, i) + 1 < s.len() {
            read_lines(s, newline_at(s, i) + 1, e2)
        } else {
            e2
        }
    }
}

/// The value of the first line from `i` on whose key is `k`.
pub open spec fn first_value(s: Seq<char>, i: int, k: Seq<char>) -> Option<Seq<char>>
    decreases s.len() - i,
{
    if i < 0 || i >= s.len() {
        None
    } else {
        proof {
            lemma_newline_at(s, i);
        }
        match line_entry(line_from(s, i)) {
            Some((k2, v)) if k2 == k => Some(v),
            _ => if newline_at(s, i) + 1 < s.len() {
                first_value(s, newline_at(s, i) + 1, k)
            } else {
                None
            },
        }
    }
}

/// Lexicographic order of character sequences (the order of `String`).
pub open spec fn key_lt(a: Seq<char>, b: Seq<char>) -> bool
    decreases a.len(),
{
    if a.len() == 0 {
        b.len() > 0
    } else if b.len() == 0 {
        false
    } else if a[0] != b[0] {
        a[0] < b[0]
    } else {
        key_lt(a.subrange(1, a.len() as int), b.subrange(1, b.len() as int))
    }
}

pub open spec fn sorted_keys(e: Seq<(Seq<char>, Seq<char>)>) -> bool {
    forall|i: int, j: int| 0 <= i < j < e.len() ==> key_lt(e[i].0, e[j].0)
}

// ------------------------------------------------------- code blocks --

/// The key of line `n` of a numbered block.
pub open spec fn code_key(prefix: Seq<char>, n: nat) -> Seq<char> {
    prefix + nat_text(n)
}

/// `g` is the first number from 1 on whose key is missing.
pub open spec fn is_first_gap(e: Seq<(Seq<char>, Seq<char>)>, prefix: Seq<char>, g: nat) -> bool {
    &&& g >= 1
    &&& !has_key(e, code_key(prefix, g))
    &&& forall|n: nat| 1 <= n < g ==> has_key(e, #[trigger] code_key(prefix, n))
}

pub open spec fn first_gap(e: Seq<(Seq<char>, Seq<char>)>, prefix: Seq<char>) -> nat {
    choose|g: nat| is_first_gap(e, prefix, g)
}

/// A code line without the backtick Milkdrop puts before it.
pub open spec fn strip_backtick(v: Seq<char>) -> Seq<char> {
    if v.len() > 0 && v[0] == '`' {
        v.subrange(1, v.len() as int)
    } else {
        v
    }
}

pub open spec fn code_line(e: Seq<(Seq<char>, Seq<char>)>, prefix: Seq<char>, n: nat) -> Seq<char> {
    strip_backtick(lookup(e, code_key(prefix, n)).unwrap())
}

/// Lines `1..n` of a block, each followed by a newline.
pub open spec fn code_text(e: Seq<(Seq<char>, Seq<char>)>, prefix: Seq<char>, n: nat) -> Seq<char>
    decreases n,
{
    if n <= 1 {
        Seq::empty()
    } else {
        code_text(e, prefix, (n - 1) as nat) + code_line(e, prefix, (n - 1) as nat) + seq!['\n']
    }
}

pub open spec fn in_chars(c: char, set: Seq<char>) -> bool {
    set.contains(c)
}

/// A trimmed line whose expression is not complete yet (or that already ends
/// with `;`): empty, or ending in an operator, open bracket or comma.
pub open spec fn ends_with_continuation_spec(line: Seq<char>) -> bool {
    line.len() == 0 || in_chars(line[line.len() - 1], ";+-*/%^&|=<>!,([?~"@)
}

/// A line that begins with a strictly binary operator or closing bracket.
pub open spec fn starts_with_continuation_spec(line: Seq<char>) -> bool {
    let t = trim_start_chars(line);
    t.len() > 0 && in_chars(t[0], "*/%^&|<>=,)]"@)
}

/// The lines of a block, backtick and trailing white space removed.
pub open spec fn statement_lines(e: Seq<(Seq<char>, Seq<char>)>, prefix: Seq<char>, g: nat) -> Seq<Seq<char>> {
    Seq::new((g - 1) as nat, |i: int| trim_end_chars(code_line(e, prefix, (i + 1) as nat)))
}

/// A line followed by `;` when it completes a statement that the next line
/// does not continue, then a newline.
pub open spec fn statement_line(ls: Seq<Seq<char>>, i: int) -> Seq<char> {
    let next_continues = i + 1 < ls.len() && starts_with_continuation_spec(ls[i + 1]);
    ls[i] + (if !ends_with_continuation_spec(ls[i]) && !next_continues { seq![';'] } else { Seq::empty() }) + seq!['\n']
}

pub open spec fn statements_text(ls: Seq<Seq<char>>, n: int) -> Seq<char>
    decreases n,
{
    if n <= 0 {
        Seq::empty()
    } else {
        statements_text(ls, n - 1) + statement_line(ls, n - 1)
    }
}

// ----------------------------------------------------------- numbers --

pub open spec fn digit_count(s: Seq<char>, i: int) -> nat
    decreases s.len() - i,
{
    if 0 <= i < s.len() && '0' <= s[i] && s[i] <= '9' {
        1 + digit_count(s, i + 1)
    } else {
        0
    }
}

pub open spec fn decimal_value(d: Seq<char>) -> nat
    decreases d.len(),
{
    if d.len() == 0 {
        0
    } else {
        decimal_value(d.subrange(0, d.len() - 1)) * 10 + ((d[d.len() - 1] as u32) - 48) as nat
    }
}

/// The integer a value starts with (after white space): an optional sign and
/// decimal digits, if there are digits and the number fits in `i32`.
pub open spec fn leading_int(v: Seq<char>) -> Option<i32> {
    let s = trim_start_chars(v);
    let signed = s.len() > 0 && (s[0] == '+' || s[0] == '-');
    let start: int = if signed { 1 } else { 0 };
    let n = digit_count(s, start);
    let mag = decimal_value(s.subrange(start, start + n));
    let val: int = if signed && s[0] == '-' { -mag } else { mag as int };
    if n == 0 || val < i32::MIN || val > i32::MAX {
        None
    } else {
        Some(val as i32)
    }
}

/// Where the number a value starts with (after white space, `s`) ends: an
/// optional sign, digits, optionally `.` and digits, and, once a digit was
/// seen, optionally an exponent (`e` or `E`, an optional sign and at least
/// one digit). `None` if there is no digit before the exponent.
pub open spec fn float_text_end(s: Seq<char>) -> Option<int> {
    let signed = s.len() > 0 && (s[0] == '+' || s[0] == '-');
    let a: int = if signed { 1 } else { 0 };
    let n1 = digit_count(s, a);
    let b = a + n1;
    let point = b < s.len() && s[b] == '.';
    let n2: nat = if point { digit_count(s, b + 1) } else { 0 };
    let c = if point { b + 1 + n2 } else { b };
    let saw = n1 + n2 > 0;
    let has_e = c < s.len() && (s[c] == 'e' || s[c] == 'E');
    let j = if c + 1 < s.len() && (s[c + 1] == '+' || s[c + 1] == '-') { c + 2 } else { c + 1 };
    let en = digit_count(s, j);
    if !saw {
        None
    } else if has_e && en > 0 {
        Some(j + en)
    } else {
        Some(c)
    }
}

// -------------------------------------------------------- key order --

pub proof fn lemma_key_lt_irreflexive(a: Seq<char>)
    ensures
        !key_lt(a, a),
    decreases a.len(),
{
    if a.len() > 0 {
        lemma_key_lt_irreflexive(a.subrange(1, a.len() as int));
    }
}

pub proof fn lemma_key_lt_transitive(a: Seq<char>, b: Seq<char>, c: Seq<char>)
    requires
        key_lt(a, b),
        key_lt(b, c),
    ensures
        key_lt(a, c),
    decreases a.len(),
{
    if a.len() > 0 && b.len() > 0 && c.len() > 0 && a[0] == b[0] && b[0] == c[0] {
        lemma_key_lt_transitive(a.subrange(1, a.len() as int), b.subrange(1, b.len() as int), c.subrange(1, c.len() as int));
    }
}

pub proof fn lemma_key_lt_total(a: Seq<char>, b: Seq<char>)
    ensures
        a == b || key_lt(a, b) || key_lt(b, a),
    decreases a.len(),
{
    if a.len() > 0 && b.len() > 0 && a[0] == b[0] {
        let ta = a.subrange(1, a.len() as int);
        let tb = b.subrange(1, b.len() as int);
        lemma_key_lt_total(ta, tb);
        if ta == tb {
            assert(a =~= seq![a[0]] + ta);
            assert(b =~= seq![b[0]] + tb);
        }
    } else if a.len() == 0 && b.len() == 0 {
        assert(a =~= b);
    }
}

proof fn lemma_sorted_unique(e: Seq<(Seq<char>, Seq<char>)>)
    requires
        sorted_keys(e),
    ensures
        unique_keys(e),
{
    assert forall|i: int, j: int| 0 <= i < e.len() && 0 <= j < e.len() && i != j implies e[i].0 != e[j].0 by {
        if i < j {
            lemma_key_lt_irreflexive(e[i].0);
        } else {
            lemma_key_lt_irreflexive(e[j].0);
        }
    }
}

proof fn lemma_lookup_at(e: Seq<(Seq<char>, Seq<char>)>, i: int)
    requires
        unique_keys(e),
        0 <= i < e.len(),
    ensures
        has_key(e, e[i].0),
        lookup(e, e[i].0) == Some(e[i].1),
{
    assert(has_key(e, e[i].0));
}

fn key_less(a: &Vec<char>, b: &Vec<char>) -> (r: bool)
    ensures
        r == key_lt(a@, b@),
{
    let mut i: usize = 0;
    assert(a@.subrange(0, a@.len() as int) =~= a@);
    assert(b@.subrange(0, b@.len() as int) =~= b@);
    while i < a.len() && i < b.len() && a[i] == b[i]
        invariant
            i <= a.len(),
            i <= b.len(),
            key_lt(a@, b@) == key_lt(a@.subrange(i as int, a@.len() as int), b@.subrange(i as int, b@.len() as int)),
        decreases a.len() - i,
    {
        let ghost sa = a@.subrange(i as int, a@.len() as int);
        let ghost sb = b@.subrange(i as int, b@.len() as int);
        assert(sa.subrange(1, sa.len() as int) =~= a@.subrange(i + 1, a@.len() as int));
        assert(sb.subrange(1, sb.len() as int) =~= b@.subrange(i + 1, b@.len() as int));
        i = i + 1;
    }
    if i == a.len() {
        i < b.len()
    } else if i == b.len() {
        false
    } else {
        a[i] < b[i]
    }
}

// ------------------------------------------------------------- file --

/// A parsed preset file: its key/value pairs, ordered by key.
pub struct PresetFile {
    entries: Vec<(String, String)>,
}

pub open spec fn entries_view(v: Seq<(String, String)>) -> Seq<(Seq<char>, Seq<char>)> {
    v.map_values(|p: (String, String)| (p.0@, p.1@))
}

impl View for PresetFile {
    type V = Seq<(Seq<char>, Seq<char>)>;

    closed spec fn view(&self) -> Seq<(Seq<char>, Seq<char>)> {
        entries_view(self.entries@)
    }
}

/// The entries a preset's text holds, in the order their keys first appear.
pub open spec fn file_entries(content: Seq<char>) -> Seq<(Seq<char>, Seq<char>)> {
    read_lines(content, 0, Seq::empty())
}

/// Text that is accepted: not too large and without a NUL character.
pub open spec fn acceptable(content: Seq<char>) -> bool {
    vstd::utf8::encode_utf8(content).len() <= MAX_FILE_SIZE && !content.contains('\0')
}

impl PresetFile {
    #[verifier::type_invariant]
    spec fn keys_sorted(&self) -> bool {
        sorted_keys(self@) && 2 * self@.len() <= usize::MAX
    }

    /// The index of `k`'s entry.
    fn find(&self, k: &Vec<char>) -> (r: Option<usize>)
        ensures
            match r {
                Some(i) => i < self@.len() && self@[i as int].0 == k@ && lookup(self@, k@) == Some(self@[i as int].1),
                None => !has_key(self@, k@) && lookup(self@, k@) is None,
            },
    {
        proof {
            use_type_invariant(self);
            lemma_sorted_unique(self@);
        }
        for i in 0..self.entries.len()
            invariant
                unique_keys(self@),
                forall|j: int| 0 <= j < i ==> self@[j].0 != k@,
        {
            let key = str_chars(self.entries[i].0.as_str());
            if chars_equal(&key, k) {
                proof {
                    lemma_lookup_at(self@, i as int);
                }
                return Some(i);
            }
        }
        None
    }

    /// Parses `.milk` file contents. `None` if it is too large, contains a
    /// NUL (binary) or yields no key/value pairs.
    pub fn parse(content: &str) -> (r: Option<PresetFile>)
        ensures
            r is Some <==> acceptable(content@) && file_entries(content@).len() > 0,
            r matches Some(f) ==> (forall|k: Seq<char>| #[trigger] lookup(f@, k) == lookup(file_entries(content@), k)),
            r matches Some(f) ==> f@.len() == file_entries(content@).len(),
    {
        if content.as_bytes().len() > MAX_FILE_SIZE {
            return None;
        }
        let cs = str_chars(content);
        let mut k: usize = 0;
        while k < cs.len()
            invariant
                k <= cs.len(),
                cs@ == content@,
                forall|j: int| 0 <= j < k ==> cs@[j] != '\0',
            decreases cs.len() - k,
        {
            if cs[k] == '\0' {
                assert(content@.contains('\0'));
                return None;
            }
            k = k + 1;
        }
        assert(!content@.contains('\0'));
        let ghost s = content@;
        let mut entries: Vec<(String, String)> = Vec::new();
        let ghost mut assoc: Seq<(Seq<char>, Seq<char>)> = Seq::empty();
        let mut i: usize = 0;
        assert(entries_view(entries@) =~= Seq::<(Seq<char>, Seq<char>)>::empty());
        while i < cs.len()
            invariant
                i <= cs.len(),
                cs@ == s,
                file_entries(s) == read_lines(s, i as int, assoc),
                unique_keys(assoc),
                sorted_keys(entries_view(entries@)),
                entries@.len() == assoc.len(),
                2 * entries@.len() <= i,
                forall|q: Seq<char>| #[trigger] has_key(entries_view(entries@), q) == has_key(assoc, q),
                forall|q: Seq<char>| #[trigger] lookup(entries_view(entries@), q) == lookup(assoc, q),
            decreases cs.len() - i,
        {
            proof {
                lemma_newline_at(s, i as int);
            }
            let e = newline_end(&cs, i);
            let le = if e < cs.len() && e > i && cs[e - 1] == '\r' { e - 1 } else { e };
            assert(cs@.subrange(i as int, le as int) == line_from(s, i as int));
            match entry_of(&cs, i, le) {
                Some((key, value)) => {
                    proof {
                        lemma_delim_at(line_from(s, i as int), 0);
                    }
                    let kc = str_chars(key.as_str());
                    let ghost kv = key@;
                    let ghost vv = value@;
                    if !has_entry(&entries, &kc) {
                        proof {
                            assert(!has_key(assoc, kv));
                            let old_assoc = assoc;
                            assoc = assoc.push((kv, vv));
                            lemma_push_fresh(old_assoc, kv, vv);
                        }
                        insert_sorted(&mut entries, key, value);
                    }
                },
                None => {},
            }
            if e < cs.len() && e + 1 < cs.len() {
                i = e + 1;
            } else {
                i = cs.len();
            }
        }
        if entries.len() == 0 {
            None
        } else {
            let f = PresetFile { entries };
            Some(f)
        }
    }

    /// Reassembles a numbered code block: the lines `prefix1`, `prefix2`, …
    /// up to the first missing number, each without a leading backtick and
    /// followed by a newline. The prefix is lowercased.
    pub fn get_code(&self, prefix: &str) -> (r: String)
        ensures
            r@ == code_text(self@, lower_ascii(prefix@), first_gap(self@, lower_ascii(prefix@))),
    {
        let (lines, g) = self.block_lines(prefix);
        let mut code = String::new();
        let ghost p = lower_ascii(prefix@);
        assert(code@ =~= code_text(self@, p, 1));
        for n in 0..lines.len()
            invariant
                lines@.len() + 1 == g,
                forall|q: int| 0 <= q < lines@.len() ==> #[trigger] lines@[q]@ == code_line(self@, p, (q + 1) as nat),
                code@ == code_text(self@, p, (n + 1) as nat),
        {
            push_str(&mut code, lines[n].as_str());
            push_char(&mut code, '\n');
        }
        code
    }

    /// Like [`PresetFile::get_code`] for equation blocks: trailing white space
    /// is trimmed and a `;` ends each line that completes a statement (does
    /// not end in a continuation operator) when the next line does not start
    /// with a binary operator.
    pub fn get_code_statements(&self, prefix: &str) -> (r: String)
        ensures
            r@ == ({
                let p = lower_ascii(prefix@);
                let g = first_gap(self@, p);
                statements_text(statement_lines(self@, p, g), g - 1)
            }),
    {
        let (raw, g) = self.block_lines(prefix);
        let ghost p = lower_ascii(prefix@);
        let ghost ls = statement_lines(self@, p, g as nat);
        let mut lines: Vec<Vec<char>> = Vec::new();
        for n in 0..raw.len()
            invariant
                raw@.len() + 1 == g,
                ls == statement_lines(self@, p, g as nat),
                forall|q: int| 0 <= q < raw@.len() ==> #[trigger] raw@[q]@ == code_line(self@, p, (q + 1) as nat),
                lines@.len() == n,
                forall|q: int| 0 <= q < n ==> #[trigger] lines@[q]@ == ls[q],
        {
            let t = trim_end_vec(&str_chars(raw[n].as_str()));
            lines.push(t);
        }
        let mut code = String::new();
        for i in 0..lines.len()
            invariant
                lines@.len() + 1 == g,
                ls == statement_lines(self@, p, g as nat),
                forall|q: int| 0 <= q < lines@.len() ==> #[trigger] lines@[q]@ == ls[q],
                code@ == statements_text(ls, i as int),
        {
            push_chars_vec(&mut code, &lines[i]);
            let next_continues = i + 1 < lines.len() && starts_with_continuation(&lines[i + 1]);
            if !ends_with_continuation(&lines[i]) && !next_continues {
                push_char(&mut code, ';');
            }
            push_char(&mut code, '\n');
        }
        code
    }

    /// The lines of a numbered block (backtick removed) and the first missing
    /// number.
    fn block_lines(&self, prefix: &str) -> (r: (Vec<String>, usize))
        ensures
            is_first_gap(self@, lower_ascii(prefix@), r.1 as nat),
            first_gap(self@, lower_ascii(prefix@)) == r.1,
            r.0@.len() + 1 == r.1,
            forall|q: int| 0 <= q < r.0@.len() ==> #[trigger] r.0@[q]@ == code_line(self@, lower_ascii(prefix@), (q + 1) as nat),
    {
        proof {
            use_type_invariant(self);
            lemma_sorted_unique(self@);
        }
        let p = ascii_lower(prefix);
        let mut lines: Vec<String> = Vec::new();
        let mut index: usize = 1;
        loop
            invariant
                p@ == lower_ascii(prefix@),
                unique_keys(self@),
                2 * self@.len() <= usize::MAX,
                1 <= index <= self@.len() + 1,
                lines@.len() + 1 == index,
                forall|n: nat| 1 <= n < index ==> has_key(self@, #[trigger] code_key(p@, n)),
                forall|q: int| 0 <= q < lines@.len() ==> #[trigger] lines@[q]@ == code_line(self@, p@, (q + 1) as nat),
            decreases self@.len() + 1 - index,
        {
            let mut key = p.clone();
            push_nat(&mut key, index as u64);
            let kc = str_chars(key.as_str());
            match self.find(&kc) {
                Some(i) => {
                    let v = str_chars(self.entries[i].1.as_str());
                    let line = strip_backtick_vec(&v);
                    proof {
                        assert forall|n: nat| 1 <= n <= index implies has_key(self@, #[trigger] code_key(p@, n)) by {
                            if n == index {
                                assert(code_key(p@, n) == kc@);
                            }
                        }
                        lemma_block_bound(self@, p@, index as nat);
                    }
                    let ghost before = lines@;
                    lines.push(string_of_chars(&line));
                    assert(lines@[index - 1]@ == code_line(self@, p@, index as nat));
                    index = index + 1;
                },
                None => {
                    proof {
                        assert(code_key(p@, index as nat) == kc@);
                        lemma_first_gap_unique(self@, p@, index as nat);
                    }
                    return (lines, index);
                },
            }
        }
    }

    /// The integer value of `key` (case-insensitive), read like C `atoi`, or
    /// `default` if the key is missing or holds no number.
    pub fn get_int(&self, key: &str, default: i32) -> (r: i32)
        ensures
            r == (match lookup(self@, lower_ascii(key@)) {
                Some(v) => match leading_int(v) {
                    Some(x) => x,
                    None => default,
                },
                None => default,
            }),
    {
        let k = str_chars(ascii_lower(key).as_str());
        match self.find(&k) {
            Some(i) => match parse_leading_int(self.entries[i].1.as_str()) {
                Some(x) => x,
                None => default,
            },
            None => default,
        }
    }

    /// The numeric text `key`'s value (case-insensitive) starts with (see
    /// `leading_float_text`); `None` if the key is missing or its value
    /// starts with no number.
    pub fn get_float_text(&self, key: &str) -> (r: Option<String>)
        ensures
            lookup(self@, lower_ascii(key@)) is None ==> r is None,
            lookup(self@, lower_ascii(key@)) matches Some(v) ==> (match float_text_end(trim_start_chars(v)) {
                Some(e) => r matches Some(t) && t@ == trim_start_chars(v).subrange(0, e),
                None => r is None,
            }),
    {
        let k = str_chars(ascii_lower(key).as_str());
        match self.find(&k) {
            Some(i) => leading_float_text(self.entries[i].1.as_str()),
            None => None,
        }
    }

    /// Whether `key`'s integer value is positive (`default` counts as 1 or 0).
    pub fn get_bool(&self, key: &str, default: bool) -> (r: bool)
        ensures
            r == (match lookup(self@, lower_ascii(key@)) {
                Some(v) => match leading_int(v) {
                    Some(x) => x > 0,
                    None => default,
                },
                None => default,
            }),
    {
        self.get_int(key, if default { 1 } else { 0 }) > 0
    }

    /// The value of `key` (case-insensitive), or `default`.
    pub fn get_string(&self, key: &str, default: &str) -> (r: String)
        ensures
            r@ == (match lookup(self@, lower_ascii(key@)) {
                Some(v) => v,
                None => default@,
            }),
    {
        let k = str_chars(ascii_lower(key).as_str());
        match self.find(&k) {
            Some(i) => self.entries[i].1.clone(),
            None => default.to_owned(),
        }
    }

    /// The key/value pairs, ordered by key.
    pub fn values(&self) -> (r: &Vec<(String, String)>)
        ensures
            entries_view(r@) == self@,
            sorted_keys(entries_view(r@)),
    {
        proof {
            use_type_invariant(self);
        }
        &self.entries
    }
}

// ---------------------------------------------------------- helpers --

fn chars_equal(a: &Vec<char>, b: &Vec<char>) -> (r: bool)
    ensures
        r == (a@ == b@),
{
    if a.len() != b.len() {
        return false;
    }
    for i in 0..a.len()
        invariant
            a@.len() == b@.len(),
            forall|j: int| 0 <= j < i ==> a@[j] == b@[j],
    {
        if a[i] != b[i] {
            return false;
        }
    }
    assert(a@ =~= b@);
    true
}

fn string_of_chars(v: &Vec<char>) -> (r: String)
    ensures
        r@ == v@,
{
    let mut s = String::new();
    push_chars_vec(&mut s, v);
    s
}

fn push_chars_vec(s: &mut String, v: &Vec<char>)
    ensures
        final(s)@ == old(s)@ + v@,
{
    let ghost s0 = s@;
    for i in 0..v.len()
        invariant
            s@ == s0 + v@.take(i as int),
    {
        push_char(s, v[i]);
        assert(v@.take(i as int).push(v@[i as int]) =~= v@.take(i + 1));
    }
    assert(v@.take(v@.len() as int) =~= v@);
}

fn copy_chars(v: &Vec<char>, s: usize, e: usize) -> (r: Vec<char>)
    requires
        s <= e <= v.len(),
    ensures
        r@ == v@.subrange(s as int, e as int),
{
    let mut r: Vec<char> = Vec::new();
    for i in s..e
        invariant
            s <= e <= v.len(),
            r@ == v@.subrange(s as int, i as int),
    {
        r.push(v[i]);
        assert(v@.subrange(s as int, i as int).push(v@[i as int]) =~= v@.subrange(s as int, i + 1));
    }
    r
}

fn strip_backtick_vec(v: &Vec<char>) -> (r: Vec<char>)
    ensures
        r@ == strip_backtick(v@),
{
    if v.len() > 0 && v[0] == '`' {
        copy_chars(v, 1, v.len())
    } else {
        copy_chars(v, 0, v.len())
    }
}

fn space_char(c: char) -> (r: bool)
    ensures
        r == is_space(c),
{
    ('\u{9}' <= c && c <= '\u{d}') || c == ' ' || c == '\u{85}' || c == '\u{a0}' || c == '\u{1680}' || ('\u{2000}' <= c
        && c <= '\u{200a}') || c == '\u{2028}' || c == '\u{2029}' || c == '\u{202f}' || c == '\u{205f}' || c == '\u{3000}'
}

fn trim_end_vec(v: &Vec<char>) -> (r: Vec<char>)
    ensures
        r@ == trim_end_chars(v@),
{
    let mut k = v.len();
    assert(v@.subrange(0, k as int) =~= v@);
    while k > 0 && space_char(v[k - 1])
        invariant
            k <= v.len(),
            trim_end_chars(v@) == trim_end_chars(v@.subrange(0, k as int)),
        decreases k,
    {
        assert(v@.subrange(0, k as int).subrange(0, k - 1) =~= v@.subrange(0, k - 1));
        k = k - 1;
    }
    copy_chars(v, 0, k)
}

/// The position where the leading white space of `v[s..]` ends.
fn trim_start_at(v: &Vec<char>, s: usize) -> (r: usize)
    requires
        s <= v.len(),
    ensures
        s <= r <= v.len(),
        v@.subrange(r as int, v@.len() as int) == trim_start_chars(v@.subrange(s as int, v@.len() as int)),
{
    let mut j = s;
    while j < v.len() && space_char(v[j])
        invariant
            s <= j <= v.len(),
            trim_start_chars(v@.subrange(s as int, v@.len() as int)) == trim_start_chars(v@.subrange(j as int, v@.len() as int)),
        decreases v.len() - j,
    {
        assert(v@.subrange(j as int, v@.len() as int).subrange(1, (v.len() - j) as int) =~= v@.subrange(j + 1, v@.len() as int));
        j = j + 1;
    }
    j
}

fn char_in(c: char, set: &str) -> (r: bool)
    ensures
        r == in_chars(c, set@),
{
    let cs = str_chars(set);
    for i in 0..cs.len()
        invariant
            cs@ == set@,
            forall|j: int| 0 <= j < i ==> cs@[j] != c,
    {
        if cs[i] == c {
            assert(set@[i as int] == c);
            return true;
        }
    }
    false
}

/// Whether a trimmed line leaves its expression open (or already ends in `;`).
pub fn ends_with_continuation(line: &Vec<char>) -> (r: bool)
    ensures
        r == ends_with_continuation_spec(line@),
{
    if line.len() == 0 {
        true
    } else {
        char_in(line[line.len() - 1], ";+-*/%^&|=<>!,([?~")
    }
}

/// Whether a line begins with a strictly binary operator or closing bracket.
pub fn starts_with_continuation(line: &Vec<char>) -> (r: bool)
    ensures
        r == starts_with_continuation_spec(line@),
{
    let j = trim_start_at(line, 0);
    assert(line@.subrange(0, line@.len() as int) =~= line@);
    if j < line.len() {
        assert(trim_start_chars(line@)[0] == line@[j as int]);
        char_in(line[j], "*/%^&|<>=,)]")
    } else {
        false
    }
}

fn newline_end(cs: &Vec<char>, i: usize) -> (r: usize)
    requires
        i <= cs.len(),
    ensures
        r == newline_at(cs@, i as int),
        i <= r <= cs.len(),
{
    proof {
        lemma_newline_at(cs@, i as int);
    }
    let mut j = i;
    while j < cs.len() && cs[j] != '\n'
        invariant
            i <= j <= cs.len(),
            newline_at(cs@, i as int) == newline_at(cs@, j as int),
        decreases cs.len() - j,
    {
        j = j + 1;
    }
    j
}

/// The key (lowercased) and value of the line `cs[s..e]`.
fn entry_of(cs: &Vec<char>, s: usize, e: usize) -> (r: Option<(String, String)>)
    requires
        s <= e <= cs.len(),
    ensures
        match r {
            Some((k, v)) => line_entry(cs@.subrange(s as int, e as int)) == Some((k@, v@)),
            None => line_entry(cs@.subrange(s as int, e as int)) is None,
        },
{
    let ghost line = cs@.subrange(s as int, e as int);
    let mut d = s;
    while d < e && cs[d] != ' ' && cs[d] != '='
        invariant
            s <= d <= e <= cs.len(),
            line == cs@.subrange(s as int, e as int),
            delim_at(line, 0) == delim_at(line, (d - s) as int),
        decreases e - d,
    {
        assert(line[(d - s) as int] == cs@[d as int]);
        d = d + 1;
    }
    if d >= e || d == s {
        return None;
    }
    let key_chars = copy_chars(cs, s, d);
    let value = string_of_chars(&copy_chars(cs, d + 1, e));
    let key = ascii_lower(string_of_chars(&key_chars).as_str());
    assert(key_chars@ =~= line.subrange(0, (d - s) as int));
    assert(cs@.subrange(d + 1, e as int) =~= line.subrange((d - s) + 1, line.len() as int));
    Some((key, value))
}

fn has_entry(entries: &Vec<(String, String)>, k: &Vec<char>) -> (r: bool)
    ensures
        r == has_key(entries_view(entries@), k@),
{
    let ghost v = entries_view(entries@);
    for i in 0..entries.len()
        invariant
            v == entries_view(entries@),
            forall|j: int| 0 <= j < i ==> v[j].0 != k@,
    {
        if chars_equal(&str_chars(entries[i].0.as_str()), k) {
            assert(v[i as int].0 == k@);
            return true;
        }
    }
    false
}

proof fn lemma_push_fresh(e: Seq<(Seq<char>, Seq<char>)>, k: Seq<char>, v: Seq<char>)
    requires
        unique_keys(e),
        !has_key(e, k),
    ensures
        unique_keys(e.push((k, v))),
        forall|q: Seq<char>| #[trigger] has_key(e.push((k, v)), q) == (has_key(e, q) || q == k),
        forall|q: Seq<char>| #[trigger] lookup(e.push((k, v)), q) == (if q == k { Some(v) } else { lookup(e, q) }),
{
    let e2 = e.push((k, v));
    assert forall|q: Seq<char>| #[trigger] has_key(e2, q) == (has_key(e, q) || q == k) by {
        if has_key(e, q) {
            let i = choose|i: int| 0 <= i < e.len() && e[i].0 == q;
            assert(e2[i].0 == q);
        }
        if q == k {
            assert(e2[e.len() as int].0 == q);
        }
        if has_key(e2, q) && q != k {
            let i = choose|i: int| 0 <= i < e2.len() && e2[i].0 == q;
            assert(e[i].0 == q);
        }
    }
    assert(unique_keys(e2));
    assert forall|q: Seq<char>| #[trigger] lookup(e2, q) == (if q == k { Some(v) } else { lookup(e, q) }) by {
        if q == k {
            lemma_lookup_at(e2, e.len() as int);
        } else if has_key(e, q) {
            let i = choose|i: int| 0 <= i < e.len() && e[i].0 == q;
            lemma_lookup_at(e, i);
            lemma_lookup_at(e2, i);
        }
    }
}

/// The number of entries whose key comes before `k`, from the start.
fn insert_position(entries: &Vec<(String, String)>, k: &Vec<char>) -> (r: usize)
    ensures
        r <= entries.len(),
        forall|q: int| 0 <= q < r ==> key_lt(#[trigger] entries_view(entries@)[q].0, k@),
        r < entries.len() ==> !key_lt(entries_view(entries@)[r as int].0, k@),
{
    let ghost e = entries_view(entries@);
    let mut j: usize = 0;
    while j < entries.len()
        invariant
            j <= entries.len(),
            e == entries_view(entries@),
            forall|q: int| 0 <= q < j ==> key_lt(#[trigger] e[q].0, k@),
        decreases entries.len() - j,
    {
        let c = key_less(&str_chars(entries[j].0.as_str()), k);
        assert(e[j as int].0 == entries@[j as int].0@);
        if !c {
            return j;
        }
        j = j + 1;
    }
    j
}

/// Inserts a new key at its place in the key order.
fn insert_sorted(entries: &mut Vec<(String, String)>, key: String, value: String)
    requires
        sorted_keys(entries_view(old(entries)@)),
        !has_key(entries_view(old(entries)@), key@),
    ensures
        sorted_keys(entries_view(final(entries)@)),
        entries_view(final(entries)@).len() == entries_view(old(entries)@).len() + 1,
        forall|q: Seq<char>| #[trigger] has_key(entries_view(final(entries)@), q) == (has_key(entries_view(old(entries)@), q) || q == key@),
        forall|q: Seq<char>| #[trigger] lookup(entries_view(final(entries)@), q) == (if q == key@ { Some(value@) } else {
            lookup(entries_view(old(entries)@), q)
        }),
{
    let ghost e = entries_view(entries@);
    let kc = str_chars(key.as_str());
    let j = insert_position(entries, &kc);
    let ghost kv = key@;
    let ghost vv = value@;
    proof {
        lemma_sorted_unique(e);
        assert forall|q: int| j <= q < e.len() implies key_lt(kv, #[trigger] e[q].0) by {
            lemma_key_lt_total(e[j as int].0, kv);
            assert(e[j as int].0 != kv);
            if q > j {
                lemma_key_lt_transitive(kv, e[j as int].0, e[q].0);
            }
        }
    }
    entries.insert(j, (key, value));
    let ghost e2 = entries_view(entries@);
    proof {
        assert(e2 =~= e.insert(j as int, (kv, vv)));
        assert forall|a: int, b: int| 0 <= a < b < e2.len() implies key_lt(e2[a].0, e2[b].0) by {
            if b < j {
            } else if b == j {
            } else if a < j {
                lemma_key_lt_transitive(e2[a].0, kv, e2[b].0);
            } else if a == j {
            } else {
            }
        }
        lemma_sorted_unique(e2);
        assert forall|q: Seq<char>| #[trigger] has_key(e2, q) == (has_key(e, q) || q == kv) by {
            if has_key(e, q) {
                let i = choose|i: int| 0 <= i < e.len() && e[i].0 == q;
                if i < j {
                    assert(e2[i].0 == q);
                } else {
                    assert(e2[i + 1].0 == q);
                }
            }
            if q == kv {
                assert(e2[j as int].0 == q);
            }
            if has_key(e2, q) && q != kv {
                let i = choose|i: int| 0 <= i < e2.len() && e2[i].0 == q;
                if i < j {
                    assert(e[i].0 == q);
                } else {
                    assert(e[i - 1].0 == q);
                }
            }
        }
        assert forall|q: Seq<char>| #[trigger] lookup(e2, q) == (if q == kv { Some(vv) } else { lookup(e, q) }) by {
            if q == kv {
                lemma_lookup_at(e2, j as int);
            } else if has_key(e, q) {
                let i = choose|i: int| 0 <= i < e.len() && e[i].0 == q;
                lemma_lookup_at(e, i);
                if i < j {
                    lemma_lookup_at(e2, i);
                } else {
                    lemma_lookup_at(e2, i + 1);
                }
            }
        }
    }
}

/// Keys `prefix1..prefixn` all present means there are at least `n` entries.
proof fn lemma_block_bound(e: Seq<(Seq<char>, Seq<char>)>, p: Seq<char>, n: nat)
    requires
        unique_keys(e),
        forall|k: nat| 1 <= k <= n ==> has_key(e, #[trigger] code_key(p, k)),
    ensures
        n <= e.len(),
{
    let f = |k: int| choose|i: int| 0 <= i < e.len() && #[trigger] e[i].0 == code_key(p, k as nat);
    let dom = set_int_range(1, n as int + 1);
    lemma_int_range(1, n as int + 1);
    assert forall|k: int| #[trigger] dom.contains(k) implies 0 <= f(k) < e.len() && e[f(k)].0 == code_key(p, k as nat) by {
        assert(has_key(e, code_key(p, k as nat)));
    }
    assert(vstd::relations::injective_on(f, dom)) by {
        assert forall|a: int, b: int| dom.contains(a) && dom.contains(b) && #[trigger] f(a) == #[trigger] f(b) implies a == b by {
            let ka = code_key(p, a as nat);
            let kb = code_key(p, b as nat);
            assert(ka == kb);
            assert(ka.subrange(p.len() as int, ka.len() as int) =~= nat_text(a as nat));
            assert(kb.subrange(p.len() as int, kb.len() as int) =~= nat_text(b as nat));
            crate::text::lemma_nat_text_injective(a as nat, b as nat);
        }
    }
    let img = dom.map(f);
    lemma_map_size(dom, img, f);
    let range = set_int_range(0, e.len() as int);
    lemma_int_range(0, e.len() as int);
    assert(img.subset_of(range)) by {
        assert forall|x: int| img.contains(x) implies range.contains(x) by {
            let k = choose|k: int| dom.contains(k) && f(k) == x;
        }
    }
    lemma_len_subset(img, range);
}

proof fn lemma_first_gap_unique(e: Seq<(Seq<char>, Seq<char>)>, p: Seq<char>, g: nat)
    requires
        is_first_gap(e, p, g),
    ensures
        first_gap(e, p) == g,
{
    let h = first_gap(e, p);
    assert(is_first_gap(e, p, h));
    if h < g {
        assert(has_key(e, code_key(p, h)));
    } else if h > g {
        assert(has_key(e, code_key(p, g)));
    }
}

/// The text of the number a value starts with (after white space): see
/// `float_text_end`. `None` if it starts with no number.
pub fn leading_float_text(v: &str) -> (r: Option<String>)
    ensures
        float_text_end(trim_start_chars(v@)) is None ==> r is None,
        float_text_end(trim_start_chars(v@)) matches Some(e) ==> (r matches Some(t) && t@ == trim_start_chars(
            v@,
        ).subrange(0, e)),
{
    let cs = str_chars(v);
    let s = trim_start_at(&cs, 0);
    assert(cs@.subrange(0, cs@.len() as int) =~= cs@);
    let mut tv: Vec<char> = Vec::new();
    let mut i = s;
    while i < cs.len()
        invariant
            s <= i <= cs.len(),
            tv@ == cs@.subrange(s as int, i as int),
        decreases cs.len() - i,
    {
        tv.push(cs[i]);
        assert(cs@.subrange(s as int, i + 1) =~= cs@.subrange(s as int, i as int).push(cs@[i as int]));
        i = i + 1;
    }
    assert(tv@ =~= trim_start_chars(v@));
    match float_end(&tv) {
        None => None,
        Some(end) => {
            let mut r = String::new();
            let mut k: usize = 0;
            while k < end
                invariant
                    k <= end <= tv.len(),
                    r@ == tv@.subrange(0, k as int),
                decreases end - k,
            {
                push_char(&mut r, tv[k]);
                assert(tv@.subrange(0, k + 1) =~= tv@.subrange(0, k as int).push(tv@[k as int]));
                k = k + 1;
            }
            Some(r)
        },
    }
}

/// `float_text_end` of `t`.
fn float_end(t: &Vec<char>) -> (r: Option<usize>)
    ensures
        r matches Some(e) ==> float_text_end(t@) == Some(e as int) && e <= t.len(),
        r is None ==> float_text_end(t@) is None,
{
    let n = t.len();
    let signed = n > 0 && (t[0] == '+' || t[0] == '-');
    let a: usize = if signed { 1 } else { 0 };
    let b = digits_end(t, a);
    let point = b < n && t[b] == '.';
    let c = if point { digits_end(t, b + 1) } else { b };
    let saw = b > a || c > b + 1;
    if !saw {
        return None;
    }
    if c < n && (t[c] == 'e' || t[c] == 'E') {
        let j = if c + 1 < n && (t[c + 1] == '+' || t[c + 1] == '-') { c + 2 } else { c + 1 };
        if j < n {
            let k = digits_end(t, j);
            if k > j {
                return Some(k);
            }
        } else {
            assert(digit_count(t@, j as int) == 0);
        }
    }
    Some(c)
}

/// The end of the run of decimal digits starting at `i`.
fn digits_end(cs: &Vec<char>, i: usize) -> (r: usize)
    requires
        i <= cs.len(),
    ensures
        i <= r <= cs.len(),
        r == i + digit_count(cs@, i as int),
{
    let mut k = i;
    while k < cs.len() && '0' <= cs[k] && cs[k] <= '9'
        invariant
            i <= k <= cs.len(),
            digit_count(cs@, i as int) == (k - i) + digit_count(cs@, k as int),
        decreases cs.len() - k,
    {
        k = k + 1;
    }
    k
}

/// The integer a value starts with, read like C `atoi` (see `leading_int`).
pub fn parse_leading_int(v: &str) -> (r: Option<i32>)
    ensures
        r == leading_int(v@),
{
    let cs = str_chars(v);
    let s = trim_start_at(&cs, 0);
    assert(cs@.subrange(0, cs@.len() as int) =~= cs@);
    let ghost t = trim_start_chars(v@);
    assert(t =~= cs@.subrange(s as int, cs@.len() as int));
    let signed = s < cs.len() && (cs[s] == '+' || cs[s] == '-');
    let neg = signed && cs[s] == '-';
    let start = if signed { s + 1 } else { s };
    let mut i = start;
    let mut mag: u64 = 0;
    let ghost st = (start - s) as int;
    assert(t.subrange(st, st) =~= Seq::<char>::empty());
    while i < cs.len() && '0' <= cs[i] && cs[i] <= '9'
        invariant
            s <= start <= i <= cs.len(),
            st == start - s,
            t =~= cs@.subrange(s as int, cs@.len() as int),
            digit_count(t, st) == (i - start) + digit_count(t, (i - s) as int),
            mag == (if decimal_value(t.subrange(st, (i - s) as int)) <= 4294967296 {
                decimal_value(t.subrange(st, (i - s) as int))
            } else {
                4294967296
            }),
        decreases cs.len() - i,
    {
        let ghost prev = t.subrange(st, (i - s) as int);
        let ghost next = t.subrange(st, (i - s) + 1);
        assert(next.subrange(0, next.len() - 1) =~= prev);
        assert(next[next.len() - 1] == cs@[i as int]);
        let d = (cs[i] as u32 - 48) as u64;
        if mag < 4294967296 {
            let w = mag * 10 + d;
            mag = if w <= 4294967296 { w } else { 4294967296 };
        }
        i = i + 1;
    }
    assert(t.subrange(st, st + digit_count(t, st)) =~= t.subrange(st, (i - s) as int));
    if i == start {
        return None;
    }
    if neg {
        if mag > 2147483648 {
            None
        } else {
            Some((0 - mag as i64) as i32)
        }
    } else {
        if mag > 2147483647 {
            None
        } else {
            Some(mag as i32)
        }
    }
}

// -------------------------------------------------------------- laws --

proof fn lemma_read_lines_lookup(s: Seq<char>, i: int, e: Seq<(Seq<char>, Seq<char>)>, k: Seq<char>)
    requires
        unique_keys(e),
        0 <= i,
    ensures
        unique_keys(read_lines(s, i, e)),
        lookup(read_lines(s, i, e), k) == (if has_key(e, k) { lookup(e, k) } else { first_value(s, i, k) }),
    decreases s.len() - i,
{
    if i < s.len() {
        lemma_newline_at(s, i);
        let e2 = match line_entry(line_from(s, i)) {
            Some((k2, v)) => if has_key(e, k2) {
                e
            } else {
                e.push((k2, v))
            },
            None => e,
        };
        match line_entry(line_from(s, i)) {
            Some((k2, v)) => if !has_key(e, k2) {
                lemma_push_fresh(e, k2, v);
            },
            None => {},
        }
        if newline_at(s, i) + 1 < s.len() {
            lemma_read_lines_lookup(s, newline_at(s, i) + 1, e2, k);
        }
    }
}

/// Whether some line from `i` on has a key: a space or `=` that is not its
/// first character.
pub open spec fn some_line_has_key(s: Seq<char>, i: int) -> bool
    decreases s.len() - i,
{
    if i < 0 || i >= s.len() {
        false
    } else {
        proof {
            lemma_newline_at(s, i);
        }
        line_entry(line_from(s, i)) is Some || (newline_at(s, i) + 1 < s.len() && some_line_has_key(
            s,
            newline_at(s, i) + 1,
        ))
    }
}

proof fn lemma_read_lines_nonempty(s: Seq<char>, i: int, e: Seq<(Seq<char>, Seq<char>)>)
    requires
        0 <= i,
    ensures
        read_lines(s, i, e).len() >= e.len(),
        read_lines(s, i, e).len() > 0 <==> (e.len() > 0 || some_line_has_key(s, i)),
    decreases s.len() - i,
{
    if i < s.len() {
        lemma_newline_at(s, i);
        let e2 = match line_entry(line_from(s, i)) {
            Some((k, v)) => if has_key(e, k) {
                e
            } else {
                e.push((k, v))
            },
            None => e,
        };
        if line_entry(line_from(s, i)) is Some {
            let k = line_entry(line_from(s, i)).unwrap().0;
            if has_key(e, k) {
                assert(e.len() > 0);
            }
        }
        if newline_at(s, i) + 1 < s.len() {
            lemma_read_lines_nonempty(s, newline_at(s, i) + 1, e2);
        }
    }
}

/// A text that is accepted yields a preset file exactly when some line has
/// a key before its first space or `=` (so [`PresetFile::parse`] gives
/// `None` exactly for text that is too large, holds a NUL, or has no such
/// line).
pub proof fn law_parse_needs_a_key(content: Seq<char>)
    ensures
        file_entries(content).len() > 0 <==> some_line_has_key(content, 0),
        forall|line: Seq<char>|
            #[trigger] line_entry(line) is Some <==> exists|p: int|
                0 < p < line.len() && (line[p] == ' ' || line[p] == '=') && forall|q: int|
                    0 <= q < p ==> line[q] != ' ' && line[q] != '=',
{
    lemma_read_lines_nonempty(content, 0, Seq::empty());
    assert forall|line: Seq<char>|
        #[trigger] line_entry(line) is Some <==> exists|p: int|
            0 < p < line.len() && (line[p] == ' ' || line[p] == '=') && forall|q: int|
                0 <= q < p ==> line[q] != ' ' && line[q] != '=' by {
        lemma_delim_first(line, 0);
        let d = delim_at(line, 0);
        if exists|p: int|
            0 < p < line.len() && (line[p] == ' ' || line[p] == '=') && forall|q: int|
                0 <= q < p ==> line[q] != ' ' && line[q] != '=' {
            let p = choose|p: int|
                0 < p < line.len() && (line[p] == ' ' || line[p] == '=') && forall|q: int|
                    0 <= q < p ==> line[q] != ' ' && line[q] != '=';
            if d < p {
                assert(line[d] != ' ' && line[d] != '=');
            }
            if p < d {
                assert(line[p] != ' ' && line[p] != '=');
            }
        }
    }
}

proof fn lemma_delim_first(s: Seq<char>, i: int)
    requires
        0 <= i <= s.len(),
    ensures
        i <= delim_at(s, i) <= s.len(),
        forall|q: int| i <= q < delim_at(s, i) ==> s[q] != ' ' && s[q] != '=',
        delim_at(s, i) < s.len() ==> (s[delim_at(s, i)] == ' ' || s[delim_at(s, i)] == '='),
    decreases s.len() - i,
{
    if i < s.len() && s[i] != ' ' && s[i] != '=' {
        lemma_delim_first(s, i + 1);
    }
}

proof fn lemma_gap_search(e: Seq<(Seq<char>, Seq<char>)>, p: Seq<char>, n: nat)
    requires
        unique_keys(e),
        n >= 1,
        forall|k: nat| 1 <= k < n ==> has_key(e, #[trigger] code_key(p, k)),
    ensures
        is_first_gap(e, p, first_gap(e, p)),
    decreases e.len() + 1 - n,
{
    if !has_key(e, code_key(p, n)) {
        assert(is_first_gap(e, p, n));
    } else {
        assert forall|k: nat| 1 <= k <= n implies has_key(e, #[trigger] code_key(p, k)) by {}
        lemma_block_bound(e, p, n);
        lemma_gap_search(e, p, n + 1);
    }
}

proof fn lemma_code_text_flat(e: Seq<(Seq<char>, Seq<char>)>, p: Seq<char>, n: nat)
    requires
        n >= 1,
    ensures
        code_text(e, p, n) == Seq::new((n - 1) as nat, |i: int| code_line(e, p, (i + 1) as nat) + seq!['\n']).flatten_alt(),
    decreases n,
{
    let f = |i: int| code_line(e, p, (i + 1) as nat) + seq!['\n'];
    let q = Seq::new((n - 1) as nat, f);
    if n > 1 {
        lemma_code_text_flat(e, p, (n - 1) as nat);
        assert(q.drop_last() =~= Seq::new((n - 2) as nat, f));
        assert(q.last() == f(n - 2));
        assert(code_text(e, p, n) =~= q.drop_last().flatten_alt() + q.last());
    } else {
        assert(q.len() == 0);
    }
}

/// A numbered code block, over a file's entries `e` (what
/// [`PresetFile::values`] gives): the values under `p1`, `p2`, … up to the
/// first missing number, each without one leading backtick and followed by a
/// newline. Keys after that gap play no part. [`PresetFile::get_code`]
/// returns this for the lowercased prefix.
pub proof fn law_code_block(e: Seq<(Seq<char>, Seq<char>)>, p: Seq<char>)
    requires
        sorted_keys(e),
    ensures
        first_gap(e, p) >= 1,
        !has_key(e, p + nat_text(first_gap(e, p))),
        forall|n: nat| 1 <= n < first_gap(e, p) ==> has_key(e, #[trigger] (p + nat_text(n))),
        code_text(e, p, first_gap(e, p)) == Seq::new(
            (first_gap(e, p) - 1) as nat,
            |i: int| strip_backtick(lookup(e, p + nat_text((i + 1) as nat)).unwrap()) + seq!['\n'],
        ).flatten(),
{
    lemma_sorted_unique(e);
    lemma_gap_search(e, p, 1);
    let g = first_gap(e, p);
    assert forall|n: nat| 1 <= n < g implies has_key(e, #[trigger] (p + nat_text(n))) by {
        assert(has_key(e, code_key(p, n)));
    }
    lemma_code_text_flat(e, p, g);
    let q = Seq::new((g - 1) as nat, |i: int| code_line(e, p, (i + 1) as nat) + seq!['\n']);
    q.lemma_flatten_and_flatten_alt_are_equivalent();
    assert(q =~= Seq::new(
        (g - 1) as nat,
        |i: int| strip_backtick(lookup(e, p + nat_text((i + 1) as nat)).unwrap()) + seq!['\n'],
    ));
}

proof fn lemma_statements_flat(ls: Seq<Seq<char>>, n: int)
    requires
        0 <= n <= ls.len(),
    ensures
        statements_text(ls, n) == Seq::new(n as nat, |i: int| statement_line(ls, i)).flatten_alt(),
    decreases n,
{
    let q = Seq::new(n as nat, |i: int| statement_line(ls, i));
    if n > 0 {
        lemma_statements_flat(ls, n - 1);
        assert(q.drop_last() =~= Seq::new((n - 1) as nat, |i: int| statement_line(ls, i)));
    } else {
        assert(q.len() == 0);
    }
}

/// A numbered block joined as statements (what
/// [`PresetFile::get_code_statements`] returns, over a file's entries `e`):
/// the block's lines, each without one leading backtick and without
/// trailing white space, each followed by `;` when it is not empty, does not
/// end in one of `;+-*/%^&|=<>!,([?~`, and the next line does not start
/// (after white space) with one of `*/%^&|<>=,)]`, then by a newline.
pub proof fn law_statement_block(e: Seq<(Seq<char>, Seq<char>)>, p: Seq<char>)
    requires
        sorted_keys(e),
    ensures
        ({
            let g = first_gap(e, p);
            let ls = Seq::new(
                (g - 1) as nat,
                |i: int| trim_end_chars(strip_backtick(lookup(e, p + nat_text((i + 1) as nat)).unwrap())),
            );
            statements_text(statement_lines(e, p, g), g - 1) == Seq::new(
                ls.len(),
                |i: int|
                    ls[i] + (if ls[i].len() > 0 && !";+-*/%^&|=<>!,([?~"@.contains(ls[i].last()) && !(i + 1 < ls.len()
                        && trim_start_chars(ls[i + 1]).len() > 0 && "*/%^&|<>=,)]"@.contains(
                        trim_start_chars(ls[i + 1])[0],
                    )) {
                        seq![';']
                    } else {
                        Seq::empty()
                    }) + seq!['\n'],
            ).flatten()
        }),
{
    lemma_sorted_unique(e);
    lemma_gap_search(e, p, 1);
    let g = first_gap(e, p);
    let ls = statement_lines(e, p, g);
    lemma_statements_flat(ls, g - 1);
    let q = Seq::new((g - 1) as nat, |i: int| statement_line(ls, i));
    q.lemma_flatten_and_flatten_alt_are_equivalent();
    let ls2 = Seq::new(
        (g - 1) as nat,
        |i: int| trim_end_chars(strip_backtick(lookup(e, p + nat_text((i + 1) as nat)).unwrap())),
    );
    assert(ls =~= ls2);
    assert(q =~= Seq::new(
        ls2.len(),
        |i: int|
            ls2[i] + (if ls2[i].len() > 0 && !";+-*/%^&|=<>!,([?~"@.contains(ls2[i].last()) && !(i + 1 < ls2.len()
                && trim_start_chars(ls2[i + 1]).len() > 0 && "*/%^&|<>=,)]"@.contains(trim_start_chars(ls2[i + 1])[0])) {
                seq![';']
            } else {
                Seq::empty()
            }) + seq!['\n'],
    ));
}

proof fn lemma_digit_count(s: Seq<char>, i: int)
    requires
        0 <= i <= s.len(),
    ensures
        i + digit_count(s, i) <= s.len(),
        forall|k: int| i <= k < i + digit_count(s, i) ==> '0' <= #[trigger] s[k] && s[k] <= '9',
        i + digit_count(s, i) < s.len() ==> !('0' <= s[i + digit_count(s, i)] && s[i + digit_count(s, i)] <= '9'),
    decreases s.len() - i,
{
    if i < s.len() && '0' <= s[i] && s[i] <= '9' {
        lemma_digit_count(s, i + 1);
    }
}

/// The integer a value starts with (what [`PresetFile::get_int`] reads, or
/// else falls back to its default): after leading white space and an
/// optional sign, the longest run of decimal digits, as a decimal number
/// with that sign, when there is a digit and the number fits in `i32`.
pub proof fn law_leading_int(v: Seq<char>)
    ensures
        ({
            let s = trim_start_chars(v);
            let a: int = if s.len() > 0 && (s[0] == '+' || s[0] == '-') { 1 } else { 0 };
            let n = digit_count(s, a);
            let mag = decimal_value(s.subrange(a, a + n));
            let val: int = if a == 1 && s[0] == '-' { -mag } else { mag as int };
            &&& a + n <= s.len()
            &&& forall|k: int| a <= k < a + n ==> '0' <= #[trigger] s[k] && s[k] <= '9'
            &&& a + n < s.len() ==> !('0' <= s[a + n] && s[a + n] <= '9')
            &&& leading_int(v) is Some <==> (n > 0 && i32::MIN <= val <= i32::MAX)
            &&& leading_int(v) matches Some(x) ==> x == val
        }),
{
    let s = trim_start_chars(v);
    let a: int = if s.len() > 0 && (s[0] == '+' || s[0] == '-') { 1 } else { 0 };
    lemma_digit_count(s, a);
}

/// The first line holding a key gives its value: a later line with the same
/// (case-insensitive) key changes nothing.
pub proof fn law_first_occurrence_wins(content: Seq<char>, k: Seq<char>)
    ensures
        lookup(file_entries(content), k) == first_value(content, 0, k),
{
    lemma_read_lines_lookup(content, 0, Seq::empty(), k);
}

proof fn lemma_lower_idempotent(s: Seq<char>)
    ensures
        lower_ascii(lower_ascii(s)) == lower_ascii(s),
{
    assert forall|i: int| 0 <= i < s.len() implies #[trigger] lower_char(lower_char(s[i])) == lower_char(s[i]) by {
        let c = s[i];
        if 'A' <= c && c <= 'Z' {
            assert(((c as u32) + 32) as char as u32 == (c as u32) + 32);
        }
    }
    assert(lower_ascii(lower_ascii(s)) =~= lower_ascii(s));
}

proof fn lemma_read_lines_lowercase(s: Seq<char>, i: int, e: Seq<(Seq<char>, Seq<char>)>)
    requires
        0 <= i,
        forall|j: int| 0 <= j < e.len() ==> lower_ascii(#[trigger] e[j].0) == e[j].0,
    ensures
        forall|j: int| 0 <= j < read_lines(s, i, e).len() ==> lower_ascii(#[trigger] read_lines(s, i, e)[j].0) == read_lines(
            s,
            i,
            e,
        )[j].0,
    decreases s.len() - i,
{
    if i < s.len() {
        lemma_newline_at(s, i);
        let e2 = match line_entry(line_from(s, i)) {
            Some((k2, v)) => if has_key(e, k2) {
                e
            } else {
                e.push((k2, v))
            },
            None => e,
        };
        let line = line_from(s, i);
        lemma_delim_at(line, 0);
        lemma_lower_idempotent(line.subrange(0, delim_at(line, 0)));
        assert forall|j: int| 0 <= j < e2.len() implies lower_ascii(#[trigger] e2[j].0) == e2[j].0 by {
            if j < e.len() {
                assert(e2[j] == e[j]);
            }
        }
        if newline_at(s, i) + 1 < s.len() {
            lemma_read_lines_lowercase(s, newline_at(s, i) + 1, e2);
            assert(read_lines(s, i, e) == read_lines(s, newline_at(s, i) + 1, e2));
        } else {
            assert(read_lines(s, i, e) == e2);
        }
    }
}

/// Keys are stored lowercased (so lookups by a lowercased key are
/// case-insensitive).
pub proof fn law_keys_are_lowercase(content: Seq<char>)
    ensures
        forall|j: int|
            0 <= j < file_entries(content).len() ==> lower_ascii(#[trigger] file_entries(content)[j].0)
                == file_entries(content)[j].0,
{
    lemma_read_lines_lowercase(content, 0, Seq::empty());
}

} // verus!
