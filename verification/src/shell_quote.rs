//! Rendering argument vectors as shell words, for `run --dry-run`.
use vstd::prelude::*;
use vstd::string::*;
use vstd::utf8::*;

use crate::text::{push_char, utf8_str};

verus! {

broadcast use vstd::string::group_string_axioms;

/// Bytes that a POSIX shell reads literally outside quotes.
pub open spec fn is_shell_safe(b: u8) -> bool {
    ||| 97 <= b <= 122  // a-z
    ||| 65 <= b <= 90  // A-Z
    ||| 48 <= b <= 57  // 0-9
    ||| b == 95  // _
    ||| b == 64  // @
    ||| b == 37  // %
    ||| b == 43  // +
    ||| b == 61  // =
    ||| b == 58  // :
    ||| b == 44  // ,
    ||| b == 46  // .
    ||| b == 47  // /
    ||| b == 45  // -
}

pub open spec fn all_shell_safe(bytes: Seq<u8>) -> bool {
    forall|i: int| 0 <= i < bytes.len() ==> #[trigger] is_shell_safe(bytes[i])
}

/// Each byte read as the character with the same number.
pub open spec fn byte_chars(bytes: Seq<u8>) -> Seq<char> {
    bytes.map_values(|b: u8| b as char)
}

/// The inside of a single-quoted word: every `'` becomes `'\''`.
pub open spec fn single_quote_body(chars: Seq<char>) -> Seq<char>
    decreases chars.len(),
{
    if chars.len() == 0 {
        seq![]
    } else {
        single_quote_body(chars.drop_last()) + if chars.last() == '\'' {
            seq!['\'', '\\', '\'', '\'']
        } else {
            seq![chars.last()]
        }
    }
}

pub open spec fn single_quoted(chars: Seq<char>) -> Seq<char> {
    seq!['\''] + single_quote_body(chars) + seq!['\'']
}

/// The digit character for a value below 8.
pub open spec fn octal_digit(v: int) -> char {
    (48 + v) as char
}

/// `\NNN`: the byte as three octal digits.
pub open spec fn octal_escape(b: u8) -> Seq<char> {
    seq!['\\', octal_digit((b / 64) as int), octal_digit(((b / 8) % 8) as int), octal_digit((b % 8) as int)]
}

/// How one byte is written inside `$'...'`.
pub open spec fn ansi_c_escape(b: u8) -> Seq<char> {
    if b == 39 {
        seq!['\\', '\'']
    } else if b == 92 {
        seq!['\\', '\\']
    } else if b == 10 {
        seq!['\\', 'n']
    } else if b == 13 {
        seq!['\\', 'r']
    } else if b == 9 {
        seq!['\\', 't']
    } else if 0x20 <= b <= 0x7e {
        seq![b as char]
    } else {
        octal_escape(b)
    }
}

pub open spec fn ansi_c_body(bytes: Seq<u8>) -> Seq<char>
    decreases bytes.len(),
{
    if bytes.len() == 0 {
        seq![]
    } else {
        ansi_c_body(bytes.drop_last()) + ansi_c_escape(bytes.last())
    }
}

pub open spec fn ansi_c_quoted(bytes: Seq<u8>) -> Seq<char> {
    seq!['$', '\''] + ansi_c_body(bytes) + seq!['\'']
}

/// How one argument is written as a shell word: `''` when empty, as is when
/// every byte is safe, single-quoted when it is UTF-8 text, and `$'...'`
/// otherwise.
pub open spec fn shell_word(bytes: Seq<u8>) -> Seq<char> {
    if bytes.len() == 0 {
        seq!['\'', '\'']
    } else if all_shell_safe(bytes) {
        byte_chars(bytes)
    } else if valid_utf8(bytes) {
        single_quoted(decode_utf8(bytes))
    } else {
        ansi_c_quoted(bytes)
    }
}

/// The words of `args`, separated by single spaces.
pub open spec fn shell_line(args: Seq<Seq<u8>>) -> Seq<char>
    decreases args.len(),
{
    if args.len() == 0 {
        seq![]
    } else if args.len() == 1 {
        shell_word(args[0])
    } else {
        shell_line(args.drop_last()) + seq![' '] + shell_word(args.last())
    }
}

pub open spec fn arg_views(args: Seq<Vec<u8>>) -> Seq<Seq<u8>> {
    args.map_values(|a: Vec<u8>| a@)
}

/// Renders `args` as one line of shell words.
pub fn shell_words(args: &[Vec<u8>]) -> (line: String)
    ensures
        line@ == shell_line(arg_views(args@)),
{
    let ghost views = arg_views(args@);
    let mut line = String::new();
    let mut i: usize = 0;
    while i < args.len()
        invariant
            i <= args@.len(),
            views == arg_views(args@),
            line@ == shell_line(views.take(i as int)),
        decreases args.len() - i,
    {
        let word = shell_quote(args[i].as_slice());
        proof {
            assert(views.take(i + 1).drop_last() == views.take(i as int));
            assert(views.take(i + 1).last() == args@[i as int]@);
        }
        if i > 0 {
            push_char(&mut line, ' ');
        } else {
            assert(line@ == Seq::<char>::empty());
        }
        line.append(word.as_str());
        i = i + 1;
    }
    assert(views.take(args@.len() as int) == views);
    line
}

/// Quotes one argument as a shell word.
pub fn shell_quote(arg: &[u8]) -> (word: String)
    ensures
        word@ == shell_word(arg@),
{
    if arg.len() == 0 {
        let word = String::from_str("''");
        proof {
            reveal_strlit("''");
        }
        return word;
    }
    let mut all_safe = true;
    let mut i: usize = 0;
    while i < arg.len()
        invariant
            i <= arg@.len(),
            all_safe <==> forall|j: int| 0 <= j < i ==> #[trigger] is_shell_safe(arg@[j]),
        decreases arg.len() - i,
    {
        if !is_shell_safe_byte(arg[i]) {
            all_safe = false;
        }
        i = i + 1;
    }
    if all_safe {
        let mut word = String::new();
        let mut k: usize = 0;
        while k < arg.len()
            invariant
                k <= arg@.len(),
                word@ == byte_chars(arg@.take(k as int)),
            decreases arg.len() - k,
        {
            push_char(&mut word, arg[k] as char);
            assert(byte_chars(arg@.take(k + 1)) == byte_chars(arg@.take(k as int)).push(
                arg@[k as int] as char,
            ));
            k = k + 1;
        }
        assert(arg@.take(arg@.len() as int) == arg@);
        return word;
    }
    match utf8_str(arg) {
        Some(text) => {
            proof {
                broadcast use encode_utf8_decode_utf8;

                assert(decode_utf8(text.spec_bytes()) == text@);
            }
            shell_single_quote(text)
        },
        None => shell_ansi_c_quote(arg),
    }
}

/// Wraps text in single quotes, writing each `'` as `'\''`.
pub fn shell_single_quote(text: &str) -> (quoted: String)
    ensures
        quoted@ == single_quoted(text@),
{
    let mut quoted = String::new();
    push_char(&mut quoted, '\'');
    for character in it: text.chars()
        invariant
            it.seq() == text@,
            quoted@ == seq!['\''] + single_quote_body(text@.take(it.index() as int)),
    {
        proof {
            assert(text@.take(it.index() + 1).drop_last() == text@.take(it.index() as int));
        }
        if character == '\'' {
            push_char(&mut quoted, '\'');
            push_char(&mut quoted, '\\');
            push_char(&mut quoted, '\'');
            push_char(&mut quoted, '\'');
        } else {
            push_char(&mut quoted, character);
        }
    }
    assert(text@.take(text@.len() as int) == text@);
    push_char(&mut quoted, '\'');
    quoted
}

/// Writes bytes as a `$'...'` word, escaping quotes, backslashes, newlines,
/// carriage returns, tabs and every byte outside printable ASCII.
pub fn shell_ansi_c_quote(bytes: &[u8]) -> (quoted: String)
    ensures
        quoted@ == ansi_c_quoted(bytes@),
{
    let mut quoted = String::new();
    push_char(&mut quoted, '$');
    push_char(&mut quoted, '\'');
    let mut i: usize = 0;
    while i < bytes.len()
        invariant
            i <= bytes@.len(),
            quoted@ == seq!['$', '\''] + ansi_c_body(bytes@.take(i as int)),
        decreases bytes.len() - i,
    {
        let byte = bytes[i];
        proof {
            assert(bytes@.take(i + 1).drop_last() == bytes@.take(i as int));
        }
        if byte == 39 {
            push_char(&mut quoted, '\\');
            push_char(&mut quoted, '\'');
        } else if byte == 92 {
            push_char(&mut quoted, '\\');
            push_char(&mut quoted, '\\');
        } else if byte == 10 {
            push_char(&mut quoted, '\\');
            push_char(&mut quoted, 'n');
        } else if byte == 13 {
            push_char(&mut quoted, '\\');
            push_char(&mut quoted, 'r');
        } else if byte == 9 {
            push_char(&mut quoted, '\\');
            push_char(&mut quoted, 't');
        } else if 0x20 <= byte && byte <= 0x7e {
            push_char(&mut quoted, byte as char);
        } else {
            push_shell_octal_escape(&mut quoted, byte);
        }
        i = i + 1;
    }
    assert(bytes@.take(bytes@.len() as int) == bytes@);
    push_char(&mut quoted, '\'');
    quoted
}

/// Appends `\NNN`, the byte in three octal digits.
pub fn push_shell_octal_escape(quoted: &mut String, byte: u8)
    ensures
        final(quoted)@ == old(quoted)@ + octal_escape(byte),
{
    assert(byte >> 6 == byte / 64 && (byte >> 3) & 7 == (byte / 8) % 8 && byte & 7 == byte % 8)
        by (bit_vector);
    let high = byte >> 6;
    let middle = (byte >> 3) & 7;
    let low = byte & 7;
    push_char(quoted, '\\');
    push_char(quoted, (48 + high) as char);
    push_char(quoted, (48 + middle) as char);
    push_char(quoted, (48 + low) as char);
}

/// Decides `is_shell_safe`.
pub fn is_shell_safe_byte(byte: u8) -> (b: bool)
    ensures
        b == is_shell_safe(byte),
{
    (97 <= byte && byte <= 122) || (65 <= byte && byte <= 90) || (48 <= byte && byte <= 57)
        || byte == 95 || byte == 64 || byte == 37 || byte == 43 || byte == 61 || byte == 58
        || byte == 44 || byte == 46 || byte == 47 || byte == 45
}


/// A character that a shell reads as itself outside quotes, as far as this
/// reading goes: one of the safe bytes.
pub open spec fn is_plain_char(c: char) -> bool {
    (c as u32) < 128 && posix_literal_byte((c as u32) as u8)
}

/// The bytes that a POSIX shell reads as themselves outside quotes, by
/// value: ASCII letters and digits, and `_ @ % + = : , . / -`.
pub open spec fn posix_literal_byte(b: u8) -> bool {
    ||| 0x61 <= b <= 0x7a
    ||| 0x41 <= b <= 0x5a
    ||| 0x30 <= b <= 0x39
    ||| b == 0x5f
    ||| b == 0x40
    ||| b == 0x25
    ||| b == 0x2b
    ||| b == 0x3d
    ||| b == 0x3a
    ||| b == 0x2c
    ||| b == 0x2e
    ||| b == 0x2f
    ||| b == 0x2d
}

pub open spec fn is_octal_char(c: char) -> bool {
    '0' <= c && c <= '7'
}

/// The byte that `$'...'` gives for the escape `\` followed by `c`, for the
/// single-character escapes.
pub open spec fn ansi_c_named_escape(c: char) -> Option<u8> {
    if c == '\\' {
        Some(92u8)
    } else if c == '\'' {
        Some(39u8)
    } else if c == '"' {
        Some(34u8)
    } else if c == '?' {
        Some(63u8)
    } else if c == 'a' {
        Some(7u8)
    } else if c == 'b' {
        Some(8u8)
    } else if c == 'e' {
        Some(27u8)
    } else if c == 'f' {
        Some(12u8)
    } else if c == 'n' {
        Some(10u8)
    } else if c == 'r' {
        Some(13u8)
    } else if c == 't' {
        Some(9u8)
    } else if c == 'v' {
        Some(11u8)
    } else {
        None
    }
}

/// How a shell (POSIX quoting, with the `$'...'` quoting of bash and zsh)
/// reads a line whose words are separated by single unquoted spaces,
/// starting outside quotes with the bytes `word` of the current word read
/// so far. Outside quotes a safe character stands for itself and `\` makes
/// the next character literal (but a newline); `'...'` holds characters
/// literally; `$'...'` holds characters and escapes. Characters are read as
/// their UTF-8 bytes. Gives the words, or `None` for what this reading does
/// not cover: other unquoted characters, an unclosed quote, a trailing `\`
/// or one before a newline, and escapes of `$'...'` other than the
/// single-character ones and three octal digits.
pub open spec fn read_plain(s: Seq<char>, word: Seq<u8>) -> Option<Seq<Seq<u8>>>
    decreases s.len(),
{
    if s.len() == 0 {
        Some(seq![word])
    } else if s[0] == ' ' {
        match read_plain(s.skip(1), seq![]) {
            Some(ws) => Some(seq![word] + ws),
            None => None,
        }
    } else if s[0] == '\'' {
        read_single(s.skip(1), word)
    } else if s[0] == '\\' {
        if s.len() < 2 || s[1] == '\n' {
            None
        } else {
            read_plain(s.skip(2), word + encode_scalar(s[1] as u32))
        }
    } else if s[0] == '$' && s.len() >= 2 && s[1] == '\'' {
        read_ansi(s.skip(2), word)
    } else if is_plain_char(s[0]) {
        read_plain(s.skip(1), word + encode_scalar(s[0] as u32))
    } else {
        None
    }
}

/// Reading inside `'...'`: up to the next `'`, every character is literal.
pub open spec fn read_single(s: Seq<char>, word: Seq<u8>) -> Option<Seq<Seq<u8>>>
    decreases s.len(),
{
    if s.len() == 0 {
        None
    } else if s[0] == '\'' {
        read_plain(s.skip(1), word)
    } else {
        read_single(s.skip(1), word + encode_scalar(s[0] as u32))
    }
}

/// Reading inside `$'...'`: up to the next unescaped `'`.
pub open spec fn read_ansi(s: Seq<char>, word: Seq<u8>) -> Option<Seq<Seq<u8>>>
    decreases s.len(),
{
    if s.len() == 0 {
        None
    } else if s[0] == '\'' {
        read_plain(s.skip(1), word)
    } else if s[0] == '\\' {
        if s.len() < 2 {
            None
        } else if ansi_c_named_escape(s[1]) is Some {
            read_ansi(s.skip(2), word.push(ansi_c_named_escape(s[1])->0))
        } else if s.len() >= 4 && is_octal_char(s[1]) && is_octal_char(s[2]) && is_octal_char(
            s[3],
        ) {
            let v = ((s[1] as int) - 48) * 64 + ((s[2] as int) - 48) * 8 + ((s[3] as int) - 48);
            read_ansi(s.skip(4), word.push((v % 256) as u8))
        } else {
            None
        }
    } else {
        read_ansi(s.skip(1), word + encode_scalar(s[0] as u32))
    }
}

/// How a shell reads a line of words separated by single spaces.
pub open spec fn read_line(s: Seq<char>) -> Option<Seq<Seq<u8>>> {
    read_plain(s, seq![])
}

proof fn lemma_ascii_scalar(b: u8)
    requires
        b < 128,
    ensures
        ((b as char) as u32) == b as u32,
        encode_scalar((b as char) as u32) == seq![b],
{
    assert(((b as char) as u32) == b as u32);
    assert((b as u32) & 0x7f == b as u32) by (bit_vector)
        requires
            b < 128,
    ;
    assert(encode_scalar(b as u32) =~= seq![b]);
}

proof fn lemma_read_safe(b: Seq<u8>, rest: Seq<char>, word: Seq<u8>)
    requires
        all_shell_safe(b),
    ensures
        read_plain(byte_chars(b) + rest, word) == read_plain(rest, word + b),
    decreases b.len(),
{
    if b.len() == 0 {
        assert(byte_chars(b) + rest == rest);
        assert(word + b == word);
    } else {
        let s = byte_chars(b) + rest;
        let c = b[0] as char;
        assert(is_shell_safe(b[0]));
        lemma_ascii_scalar(b[0]);
        assert(s[0] == c);
        assert(is_plain_char(c));
        assert(s.skip(1) == byte_chars(b.drop_first()) + rest);
        lemma_read_safe(b.drop_first(), rest, word + seq![b[0]]);
        assert(word + seq![b[0]] + b.drop_first() == word + b);
    }
}

proof fn lemma_single_quote_body_concat(a: Seq<char>, b: Seq<char>)
    ensures
        single_quote_body(a + b) == single_quote_body(a) + single_quote_body(b),
    decreases b.len(),
{
    if b.len() == 0 {
        assert(a + b == a);
    } else {
        lemma_single_quote_body_concat(a, b.drop_last());
        assert((a + b).drop_last() == a + b.drop_last());
        assert((a + b).last() == b.last());
    }
}

proof fn lemma_read_single_quoted(chars: Seq<char>, rest: Seq<char>, word: Seq<u8>)
    ensures
        read_single(single_quote_body(chars) + seq!['\''] + rest, word) == read_plain(
            rest,
            word + encode_utf8(chars),
        ),
    decreases chars.len(),
{
    let s = single_quote_body(chars) + seq!['\''] + rest;
    if chars.len() == 0 {
        assert(s == seq!['\''] + rest);
        assert(s.skip(1) == rest);
        assert(word + encode_utf8(chars) == word);
    } else {
        let c = chars[0];
        let tail = chars.drop_first();
        assert(seq![c] + tail == chars);
        lemma_single_quote_body_concat(seq![c], tail);
        assert(seq![c].drop_last() == Seq::<char>::empty());
        assert(seq![c].last() == c);
        assert(single_quote_body(Seq::<char>::empty()) == Seq::<char>::empty());
        let inner = single_quote_body(tail) + seq!['\''] + rest;
        lemma_read_single_quoted(tail, rest, word + encode_scalar(c as u32));
        assert(encode_utf8(chars) == encode_scalar(c as u32) + encode_utf8(tail));
        assert(word + encode_scalar(c as u32) + encode_utf8(tail) == word + encode_utf8(chars));
        if c == '\'' {
            assert(single_quote_body(seq![c]) =~= seq!['\'', '\\', '\'', '\'']);
            assert(s == seq!['\'', '\\', '\'', '\''] + inner);
            assert(s.skip(1) == seq!['\\', '\'', '\''] + inner);
            assert(s.skip(1).skip(2) == seq!['\''] + inner);
            assert((seq!['\''] + inner).skip(1) == inner);
            let w2 = word + encode_scalar(c as u32);
            assert(s[0] == '\'');
            assert(read_single(s, word) == read_plain(s.skip(1), word));
            assert(s.skip(1)[0] == '\\');
            assert(s.skip(1)[1] == c);
            assert(read_plain(s.skip(1), word) == read_plain(s.skip(1).skip(2), w2));
            assert((seq!['\''] + inner)[0] == '\'');
            assert(read_plain(seq!['\''] + inner, w2) == read_single(inner, w2));
        } else {
            assert(single_quote_body(seq![c]) =~= seq![c]);
            assert(s == seq![c] + inner);
            assert(s.skip(1) == inner);
            assert(s[0] == c);
            assert(read_single(s, word) == read_single(inner, word + encode_scalar(c as u32)));
        }
    }
}

proof fn lemma_ansi_c_body_concat(a: Seq<u8>, b: Seq<u8>)
    ensures
        ansi_c_body(a + b) == ansi_c_body(a) + ansi_c_body(b),
    decreases b.len(),
{
    if b.len() == 0 {
        assert(a + b == a);
    } else {
        lemma_ansi_c_body_concat(a, b.drop_last());
        assert((a + b).drop_last() == a + b.drop_last());
        assert((a + b).last() == b.last());
    }
}

proof fn lemma_octal_digit(v: int)
    requires
        0 <= v < 8,
    ensures
        is_octal_char(octal_digit(v)),
        (octal_digit(v) as int) - 48 == v,
        ansi_c_named_escape(octal_digit(v)) is None,
{
    assert(((48 + v) as char) as int == 48 + v);
}

proof fn lemma_read_ansi_escape(b: u8, rest: Seq<char>, word: Seq<u8>)
    ensures
        read_ansi(ansi_c_escape(b) + rest, word) == read_ansi(rest, word.push(b)),
{
    let s = ansi_c_escape(b) + rest;
    if b == 39 || b == 92 || b == 10 || b == 13 || b == 9 {
        assert(s.skip(2) == rest);
    } else if 0x20 <= b <= 0x7e {
        lemma_ascii_scalar(b);
        assert(s.skip(1) == rest);
        assert(word + seq![b] == word.push(b));
    } else {
        let d1 = (b / 64) as int;
        let d2 = ((b / 8) % 8) as int;
        let d3 = (b % 8) as int;
        lemma_octal_digit(d1);
        lemma_octal_digit(d2);
        lemma_octal_digit(d3);
        assert(s.skip(4) == rest);
        assert(d1 * 64 + d2 * 8 + d3 == b) by (nonlinear_arith)
            requires
                d1 == (b / 64) as int,
                d2 == ((b / 8) % 8) as int,
                d3 == (b % 8) as int,
        ;
        assert(((d1 * 64 + d2 * 8 + d3) % 256) as u8 == b);
    }
}

proof fn lemma_read_ansi_quoted(b: Seq<u8>, rest: Seq<char>, word: Seq<u8>)
    ensures
        read_ansi(ansi_c_body(b) + seq!['\''] + rest, word) == read_plain(rest, word + b),
    decreases b.len(),
{
    let s = ansi_c_body(b) + seq!['\''] + rest;
    if b.len() == 0 {
        assert(s == seq!['\''] + rest);
        assert(s.skip(1) == rest);
        assert(word + b == word);
    } else {
        let tail = b.drop_first();
        assert(seq![b[0]] + tail == b);
        lemma_ansi_c_body_concat(seq![b[0]], tail);
        assert(seq![b[0]].drop_last() == Seq::<u8>::empty());
        assert(seq![b[0]].last() == b[0]);
        assert(ansi_c_body(Seq::<u8>::empty()) == Seq::<char>::empty());
        assert(ansi_c_body(seq![b[0]]) =~= ansi_c_escape(b[0]));
        let inner = ansi_c_body(tail) + seq!['\''] + rest;
        assert(s == ansi_c_escape(b[0]) + inner);
        lemma_read_ansi_escape(b[0], inner, word);
        lemma_read_ansi_quoted(tail, rest, word.push(b[0]));
        assert(word.push(b[0]) + tail == word + b);
    }
}

/// A quoted argument reads back as exactly its bytes, whatever follows the
/// word: the safe bytes as they are, UTF-8 text single-quoted, and any
/// other bytes, one by one, inside `$'...'`.
pub proof fn lemma_shell_word_reads_back(bytes: Seq<u8>, rest: Seq<char>, word: Seq<u8>)
    ensures
        read_plain(shell_word(bytes) + rest, word) == read_plain(rest, word + bytes),
{
    let s = shell_word(bytes) + rest;
    if bytes.len() == 0 {
        assert(s == seq!['\'', '\''] + rest);
        assert(s[0] == '\'');
        assert(s.skip(1) == seq!['\''] + rest);
        assert(s.skip(1)[0] == '\'');
        assert(s.skip(1).skip(1) == rest);
        assert(read_plain(s, word) == read_single(s.skip(1), word));
        assert(read_single(s.skip(1), word) == read_plain(rest, word));
        assert(word + bytes == word);
    } else if all_shell_safe(bytes) {
        lemma_read_safe(bytes, rest, word);
    } else if valid_utf8(bytes) {
        let chars = decode_utf8(bytes);
        assert(s == seq!['\''] + (single_quote_body(chars) + seq!['\''] + rest));
        assert(s[0] == '\'');
        assert(s.skip(1) == single_quote_body(chars) + seq!['\''] + rest);
        assert(read_plain(s, word) == read_single(s.skip(1), word));
        lemma_read_single_quoted(chars, rest, word);
        decode_utf8_encode_utf8(bytes);
    } else {
        assert(s == seq!['$', '\''] + (ansi_c_body(bytes) + seq!['\''] + rest));
        assert(s[0] == '$' && s[1] == '\'');
        assert(s.skip(2) == ansi_c_body(bytes) + seq!['\''] + rest);
        assert(read_plain(s, word) == read_ansi(s.skip(2), word));
        lemma_read_ansi_quoted(bytes, rest, word);
    }
}

proof fn lemma_shell_line_front(args: Seq<Seq<u8>>)
    requires
        args.len() > 1,
    ensures
        shell_line(args) == shell_word(args[0]) + seq![' '] + shell_line(args.skip(1)),
    decreases args.len(),
{
    let dl = args.drop_last();
    let tl = args.skip(1);
    assert(dl[0] == args[0]);
    assert(tl[0] == args[1]);
    assert(args.last() == tl.last());
    if args.len() == 2 {
        assert(tl.last() == tl[0]);
        assert(shell_line(dl) == shell_word(args[0]));
        assert(shell_line(tl) == shell_word(args[1]));
        assert(shell_line(args) =~= shell_word(args[0]) + seq![' '] + shell_line(tl));
    } else {
        lemma_shell_line_front(dl);
        assert(dl.skip(1) == tl.drop_last());
        assert(shell_line(tl) == shell_line(tl.drop_last()) + seq![' '] + shell_word(tl.last()));
        assert(shell_line(args) =~= shell_word(args[0]) + seq![' '] + shell_line(tl));
    }
}

proof fn lemma_read_line_from(args: Seq<Seq<u8>>, word: Seq<u8>)
    requires
        args.len() > 0,
    ensures
        read_plain(shell_line(args), word) == Some(seq![word + args[0]] + args.skip(1)),
    decreases args.len(),
{
    if args.len() == 1 {
        lemma_shell_word_reads_back(args[0], seq![], word);
        assert(shell_word(args[0]) + Seq::<char>::empty() == shell_line(args));
        assert(args.skip(1) == Seq::<Seq<u8>>::empty());
        assert(seq![word + args[0]] + args.skip(1) == seq![word + args[0]]);
    } else {
        lemma_shell_line_front(args);
        let rest = seq![' '] + shell_line(args.skip(1));
        assert(shell_line(args) == shell_word(args[0]) + rest);
        lemma_shell_word_reads_back(args[0], rest, word);
        assert(rest.skip(1) == shell_line(args.skip(1)));
        lemma_read_line_from(args.skip(1), seq![]);
        assert(Seq::<u8>::empty() + args.skip(1)[0] == args[1]);
        assert(seq![args[1]] + args.skip(1).skip(1) == args.skip(1));
    }
}

/// The line that `run --dry-run` prints reads back, word by word, as
/// exactly the argument vector it stands for: each argument, whatever its
/// bytes, is one word of the line, unchanged.
pub proof fn lemma_shell_line_reads_back(args: Seq<Seq<u8>>)
    requires
        args.len() > 0,
    ensures
        read_line(shell_line(args)) == Some(args),
{
    lemma_read_line_from(args, seq![]);
    assert(Seq::<u8>::empty() + args[0] == args[0]);
    assert(seq![args[0]] + args.skip(1) == args);
}


/// An argument is written bare only when it is non-empty and every byte of
/// it is one that a POSIX shell reads literally outside quotes; an argument
/// that holds any other byte (a space, a glob character such as `*`, a quote,
/// `$`, `~`, a byte outside ASCII) is written as a quoted word, starting with
/// `'` or `$'`, so that no shell expansion applies to it.
pub proof fn lemma_unquoted_words_are_literal(bytes: Seq<u8>)
    ensures
        (bytes.len() > 0 && forall|i: int|
            0 <= i < bytes.len() ==> posix_literal_byte(#[trigger] bytes[i])) ==> shell_word(bytes)
            == byte_chars(bytes),
        (exists|i: int| 0 <= i < bytes.len() && !posix_literal_byte(#[trigger] bytes[i])) ==> {
            &&& shell_word(bytes).len() > 0
            &&& (shell_word(bytes)[0] == '\'' || shell_word(bytes)[0] == '$')
        },
{
    if exists|i: int| 0 <= i < bytes.len() && !posix_literal_byte(#[trigger] bytes[i]) {
        let i = choose|i: int| 0 <= i < bytes.len() && !posix_literal_byte(#[trigger] bytes[i]);
        assert(!is_shell_safe(bytes[i]));
        assert(!all_shell_safe(bytes));
    }
    if bytes.len() > 0 && forall|i: int|
        0 <= i < bytes.len() ==> posix_literal_byte(#[trigger] bytes[i]) {
        assert forall|i: int| 0 <= i < bytes.len() implies #[trigger] is_shell_safe(bytes[i]) by {
            assert(posix_literal_byte(bytes[i]));
        }
    }
}

} // verus!
