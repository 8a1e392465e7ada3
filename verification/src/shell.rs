//! Quoting of arguments for the command line that a shell runs.

use vstd::prelude::*;
use vstd::utf8::*;
use vstd::string::StringSliceAdditionalSpecFns;
use crate::text::{lemma_small_bytes_are_ascii, utf8_of, DASH, QUOTE, SLASH};

verus! {

broadcast use vstd::utf8::group_utf8_lib;

/// How a byte stands in a shell argument: 0 is ordinary, 1 must be quoted,
/// 2 may not occur in an argument, and 3, 4, 5 lead a UTF-8 sequence of that
/// many bytes, which may not occur either.
pub open spec fn byte_class(b: u8) -> u8 {
    if b < 0x20 || (0x80 <= b && b < 0xc0) {
        2
    } else if b >= 0xf0 {
        5
    } else if b >= 0xe0 {
        4
    } else if b >= 0xc0 {
        3
    } else if b <= 0x2a || b == 0x3b || b == 0x3c || b == 0x3e || b == 0x3f || b == 0x40
        || (0x5b <= b && b <= 0x5e) || b == 0x60 || (0x7b <= b && b <= 0x7d) || b == 0x7f {
        1
    } else {
        0
    }
}

/// The class of a character; every character outside ASCII is illegal.
pub open spec fn char_class(c: char) -> u8 {
    if '\0' <= c <= '\u{7f}' {
        byte_class(c as u8)
    } else {
        2
    }
}

/// Every character of `z` may stand in a shell argument.
pub open spec fn legal_arg(z: Seq<char>) -> bool {
    forall|i: int| 0 <= i < z.len() ==> char_class(#[trigger] z[i]) < 2
}

/// `z` is a file name that begins with `-`, which the shell command would
/// take for an option.
pub open spec fn dash_guard(z: Seq<char>, is_filename: bool) -> bool {
    is_filename && z.len() > 0 && z[0] == '-'
}

/// What goes in front of a file name that begins with `-`.
pub open spec fn guard_prefix(z: Seq<char>, is_filename: bool) -> Seq<char> {
    if dash_guard(z, is_filename) {
        seq!['.', '/']
    } else {
        Seq::empty()
    }
}

/// `z` cannot be passed to the shell as it stands.
pub open spec fn needs_quoting(z: Seq<char>, is_filename: bool) -> bool {
    dash_guard(z, is_filename) || exists|i: int| 0 <= i < z.len() && char_class(#[trigger] z[i]) == 1
}

/// One character with a backslash in front where the shell would treat it
/// specially.
pub open spec fn escape_char(c: char) -> Seq<char> {
    if char_class(c) == 1 {
        seq!['\\', c]
    } else {
        seq![c]
    }
}

/// `z` with every special character backslash-escaped.
pub open spec fn backslash_escaped(z: Seq<char>) -> Seq<char>
    decreases z.len(),
{
    if z.len() == 0 {
        Seq::empty()
    } else {
        escape_char(z[0]) + backslash_escaped(z.drop_first())
    }
}

/// The shell word that stands for the legal argument `z`: `z` itself where
/// nothing needs quoting; backslash escapes where `z` holds a single quote;
/// otherwise `z` in single quotes.  A file name that begins with `-` gets
/// `./` in front.
pub open spec fn escaped_word(z: Seq<char>, is_filename: bool) -> Seq<char> {
    if !needs_quoting(z, is_filename) {
        z
    } else if z.contains('\'') {
        guard_prefix(z, is_filename) + backslash_escaped(z)
    } else {
        seq!['\''] + guard_prefix(z, is_filename) + z + seq!['\'']
    }
}

/// A space between arguments, where the command line is not empty.
pub open spec fn arg_separator(s: Seq<char>) -> Seq<char> {
    if s.len() > 0 {
        seq![' ']
    } else {
        Seq::empty()
    }
}

/// The command line `s` with the argument `z` appended, or `s` unchanged where
/// `z` is not legal.
#[verifier::opaque]
pub open spec fn with_arg(s: Seq<char>, z: Seq<char>, is_filename: bool) -> Seq<char> {
    if legal_arg(z) {
        s + arg_separator(s) + escaped_word(z, is_filename)
    } else {
        s
    }
}

/// The two shells that the command line can be written for: a POSIX `sh`,
/// or the Windows `cmd.exe`.
#[derive(Clone, Copy, Debug, PartialEq, Eq, Structural)]
pub enum Platform {
    Posix,
    Windows,
}

/// The class of a byte in a `cmd.exe` argument: as for `sh`, except that `!`
/// and `\` are ordinary.
pub open spec fn windows_byte_class(b: u8) -> u8 {
    if b == 0x21 || b == 0x5c {
        0
    } else {
        byte_class(b)
    }
}

/// The class of a character in a `cmd.exe` argument.
pub open spec fn windows_char_class(c: char) -> u8 {
    if '\0' <= c <= '\u{7f}' {
        windows_byte_class(c as u8)
    } else {
        2
    }
}

/// `z` cannot be passed to `cmd.exe` as it stands.
pub open spec fn windows_needs_quoting(z: Seq<char>, is_filename: bool) -> bool {
    dash_guard(z, is_filename) || exists|i: int|
        0 <= i < z.len() && windows_char_class(#[trigger] z[i]) == 1
}

/// What goes in front of a quoted `cmd.exe` argument: `.\` for a file name
/// that begins with `-`, else `.` for an argument that begins with `/`.
pub open spec fn windows_prefix(z: Seq<char>, is_filename: bool) -> Seq<char> {
    if dash_guard(z, is_filename) {
        seq!['.', '\\']
    } else if z.len() > 0 && z[0] == '/' {
        seq!['.']
    } else {
        Seq::empty()
    }
}

/// One character inside a double-quoted `cmd.exe` argument: `"` and `\` are
/// doubled, and in a file name `%` is followed by `%cd:~,%`.
pub open spec fn windows_escape_char(c: char, is_filename: bool) -> Seq<char> {
    if c == '"' {
        seq![c, '"']
    } else if c == '\\' {
        seq![c, '\\']
    } else if c == '%' && is_filename {
        seq![c, '%', 'c', 'd', ':', '~', ',', '%']
    } else {
        seq![c]
    }
}

/// `z` with each character written as `windows_escape_char` writes it.
pub open spec fn windows_escaped(z: Seq<char>, is_filename: bool) -> Seq<char>
    decreases z.len(),
{
    if z.len() == 0 {
        Seq::empty()
    } else {
        windows_escape_char(z[0], is_filename) + windows_escaped(z.drop_first(), is_filename)
    }
}

/// The `cmd.exe` word that stands for the legal argument `z`: `z` itself
/// where nothing needs quoting, else `z` escaped in double quotes behind its
/// prefix.
pub open spec fn windows_word(z: Seq<char>, is_filename: bool) -> Seq<char> {
    if !windows_needs_quoting(z, is_filename) {
        z
    } else {
        seq!['"'] + windows_prefix(z, is_filename) + windows_escaped(z, is_filename) + seq!['"']
    }
}

/// The command line `s` with the argument `z` appended for `platform`, or `s`
/// unchanged where `z` is not legal.
#[verifier::opaque]
pub open spec fn with_arg_on(s: Seq<char>, z: Seq<char>, is_filename: bool, platform: Platform) -> Seq<char> {
    match platform {
        Platform::Posix => with_arg(s, z, is_filename),
        Platform::Windows => if legal_arg(z) {
            s + arg_separator(s) + windows_word(z, is_filename)
        } else {
            s
        },
    }
}

/// Exactly the printable ASCII characters, the space and DEL may stand in an
/// argument: no control character and nothing outside ASCII.
pub proof fn lemma_legal_iff_printable(z: Seq<char>)
    ensures
        legal_arg(z) <==> forall|i: int| 0 <= i < z.len() ==> ' ' <= #[trigger] z[i] <= '\u{7f}',
{
    assert forall|i: int| 0 <= i < z.len() implies (char_class(z[i]) < 2 <==> ' ' <= #[trigger] z[i]
        <= '\u{7f}') by {
        let c = z[i];
        if '\0' <= c <= '\u{7f}' {
            assert(' ' <= c <==> (c as u8) >= 0x20);
        }
    }
}

/// The characters that `cmd.exe` treats specially outside double quotes:
/// the word separator, command separators and pipes, redirections, its escape
/// character, grouping, quotes and variable expansion.
pub open spec fn is_cmd_metachar(c: char) -> bool {
    c == ' ' || c == '&' || c == '|' || c == '<' || c == '>' || c == '^' || c == '(' || c == ')'
        || c == '"' || c == '%'
}

/// An argument that holds any `cmd.exe` metacharacter is written inside
/// double quotes, whether or not it is a file name.
pub proof fn lemma_windows_metachar_quoted(z: Seq<char>, is_filename: bool, i: int)
    requires
        legal_arg(z),
        0 <= i < z.len(),
        is_cmd_metachar(z[i]),
    ensures
        windows_word(z, is_filename).len() >= 2,
        windows_word(z, is_filename)[0] == '"',
        windows_word(z, is_filename).last() == '"',
{
    assert(windows_char_class(z[i]) == 1);
    assert(windows_needs_quoting(z, is_filename));
}

/// The characters between the double quotes of a `cmd.exe` word read back:
/// `""` is one `"`, `\\` is one `\`, and in a file name `%` followed by
/// `%cd:~,%` is one `%`; `None` where a `"` or `\` stands alone.
pub open spec fn windows_unescape(w: Seq<char>, is_filename: bool) -> Option<Seq<char>>
    decreases w.len(),
{
    if w.len() == 0 {
        Some(Seq::empty())
    } else if w[0] == '"' || w[0] == '\\' {
        if w.len() >= 2 && w[1] == w[0] {
            prepend_opt(seq![w[0]], windows_unescape(w.skip(2), is_filename))
        } else {
            None
        }
    } else if w[0] == '%' && is_filename {
        if w.len() >= 8 && w.subrange(1, 8) == seq!['%', 'c', 'd', ':', '~', ',', '%'] {
            prepend_opt(seq!['%'], windows_unescape(w.skip(8), is_filename))
        } else {
            None
        }
    } else {
        prepend_opt(seq![w[0]], windows_unescape(w.drop_first(), is_filename))
    }
}

proof fn lemma_windows_unescape(z: Seq<char>, r: Seq<char>, is_filename: bool)
    ensures
        windows_unescape(windows_escaped(z, is_filename) + r, is_filename) == prepend_opt(
            z,
            windows_unescape(r, is_filename),
        ),
    decreases z.len(),
{
    if z.len() == 0 {
        assert(windows_escaped(z, is_filename) + r =~= r);
        match windows_unescape(r, is_filename) {
            Some(x) => {
                assert(z + x =~= x);
            },
            None => {},
        }
    } else {
        let c = z[0];
        let rest = z.drop_first();
        lemma_windows_unescape(rest, r, is_filename);
        let e = windows_escape_char(c, is_filename);
        let tail = windows_escaped(rest, is_filename) + r;
        let w = windows_escaped(z, is_filename) + r;
        assert(w =~= e + tail);
        if c == '"' || c == '\\' {
            assert(w.skip(2) =~= tail);
        } else if c == '%' && is_filename {
            assert(w.subrange(1, 8) =~= seq!['%', 'c', 'd', ':', '~', ',', '%']);
            assert(w.skip(8) =~= tail);
        } else {
            assert(w.drop_first() =~= tail);
        }
        assert(seq![c] + rest =~= z);
        match windows_unescape(r, is_filename) {
            Some(x) => {
                assert(seq![c] + (rest + x) =~= z + x);
            },
            None => {},
        }
    }
}

/// Quoting for `cmd.exe` loses nothing and never yields an option: a quoted
/// word is `"`, a prefix that is empty, `.` or `.\`, then characters that read
/// back as exactly the argument, then `"`; and its first character inside
/// the quotes is never `/`, nor `-` for a file name.
pub proof fn lemma_windows_word_reads_back(z: Seq<char>, is_filename: bool)
    requires
        legal_arg(z),
        windows_needs_quoting(z, is_filename),
    ensures
        ({
            let w = windows_word(z, is_filename);
            &&& w.len() >= 2 && w[0] == '"' && w.last() == '"'
            &&& exists|p: Seq<char>|
                (p == Seq::<char>::empty() || p == seq!['.'] || p == seq!['.', '\\']) && w.subrange(
                    1,
                    1 + p.len() as int,
                ) == p && windows_unescape(w.subrange(1 + p.len() as int, w.len() - 1), is_filename)
                    == Some(z)
            &&& w[1] != '/'
            &&& is_filename ==> w[1] != '-'
        }),
{
    let w = windows_word(z, is_filename);
    let p = windows_prefix(z, is_filename);
    let e = windows_escaped(z, is_filename);
    assert(w == seq!['"'] + p + e + seq!['"']);
    assert(w.subrange(1, 1 + p.len() as int) =~= p);
    assert(w.subrange(1 + p.len() as int, w.len() - 1) =~= e);
    lemma_windows_unescape(z, Seq::empty(), is_filename);
    assert(e + Seq::<char>::empty() =~= e);
    assert(z + Seq::<char>::empty() =~= z);
    assert(z.len() > 0);
    if p.len() == 0 {
        assert(w[1] == e[0]);
        assert(e[0] == windows_escape_char(z[0], is_filename)[0]);
        assert(e[0] == z[0]);
    } else {
        assert(w[1] == '.');
    }
}

/// `r` with `prefix` in front, where there is an `r`.
pub open spec fn prepend_opt(prefix: Seq<char>, r: Option<Seq<char>>) -> Option<Seq<char>> {
    match r {
        Some(x) => Some(prefix + x),
        None => None,
    }
}

/// The characters that a POSIX shell treats specially outside quotes: word
/// separators, redirections, pipes and command separators, expansions, globs,
/// quoting and comments, history and brace expansion.
pub open spec fn is_sh_metachar(c: char) -> bool {
    c == ' ' || c == '!' || c == '"' || c == '#' || c == '$' || c == '&' || c == '\'' || c == '('
        || c == ')' || c == '*' || c == ';' || c == '<' || c == '>' || c == '?' || c == '['
        || c == '\\' || c == ']' || c == '^' || c == '`' || c == '{' || c == '|' || c == '}'
}

/// A printable ASCII character that a POSIX shell takes literally outside
/// quotes.
pub open spec fn sh_plain(c: char) -> bool {
    '\u{21}' <= c <= '\u{7e}' && !is_sh_metachar(c)
}

/// Every character that quoting leaves as it stands is one the shell takes
/// literally: no metacharacter is ever ordinary.
pub proof fn lemma_ordinary_is_plain(c: char)
    requires
        char_class(c) == 0,
    ensures
        sh_plain(c),
{
}

/// What a POSIX shell makes of the characters `w` of one word built from
/// ordinary characters, backslash escapes and single-quoted runs: `None`
/// where an unquoted character would be special to the shell.
pub open spec fn shell_unquote(w: Seq<char>) -> Option<Seq<char>>
    decreases w.len(), 0int,
{
    if w.len() == 0 {
        Some(Seq::empty())
    } else if w[0] == '\\' {
        if w.len() >= 2 && w[1] != '\n' {
            prepend_opt(seq![w[1]], shell_unquote(w.skip(2)))
        } else {
            None
        }
    } else if w[0] == '\'' {
        shell_unquote_quoted(w.drop_first())
    } else if sh_plain(w[0]) {
        prepend_opt(seq![w[0]], shell_unquote(w.drop_first()))
    } else {
        None
    }
}

/// The same, inside a single-quoted run, up to the closing quote.
pub open spec fn shell_unquote_quoted(w: Seq<char>) -> Option<Seq<char>>
    decreases w.len(), 1int,
{
    if w.len() == 0 {
        None
    } else if w[0] == '\'' {
        shell_unquote(w.drop_first())
    } else {
        prepend_opt(seq![w[0]], shell_unquote_quoted(w.drop_first()))
    }
}

/// The argument that a POSIX shell passes for the word `w`; `None` for an
/// empty word (which passes nothing) or one that begins with `~` (which the
/// shell expands).
pub open spec fn shell_word(w: Seq<char>) -> Option<Seq<char>> {
    if w.len() == 0 || w[0] == '~' {
        None
    } else {
        shell_unquote(w)
    }
}

proof fn lemma_unquote_plain(z: Seq<char>, r: Seq<char>)
    requires
        forall|i: int| 0 <= i < z.len() ==> sh_plain(#[trigger] z[i]),
    ensures
        shell_unquote(z + r) == prepend_opt(z, shell_unquote(r)),
    decreases z.len(),
{
    if z.len() > 0 {
        let w = z + r;
        assert(w[0] == z[0]);
        assert(sh_plain(z[0]));
        assert(w.drop_first() =~= z.drop_first() + r);
        lemma_unquote_plain(z.drop_first(), r);
        assert(seq![z[0]] + z.drop_first() =~= z);
        match shell_unquote(r) {
            Some(x) => {
                assert(seq![z[0]] + (z.drop_first() + x) =~= z + x);
            },
            None => {},
        }
    } else {
        assert(z + r =~= r);
        match shell_unquote(r) {
            Some(x) => {
                assert(z + x =~= x);
            },
            None => {},
        }
    }
}

proof fn lemma_unquote_quoted(z: Seq<char>, r: Seq<char>)
    requires
        !z.contains('\''),
    ensures
        shell_unquote_quoted(z + seq!['\''] + r) == prepend_opt(z, shell_unquote(r)),
    decreases z.len(),
{
    let w = z + seq!['\''] + r;
    if z.len() > 0 {
        assert(w[0] == z[0]);
        assert(z[0] != '\'');
        assert(w.drop_first() =~= z.drop_first() + seq!['\''] + r);
        assert(!z.drop_first().contains('\'')) by {
            if z.drop_first().contains('\'') {
                let j = choose|j: int| 0 <= j < z.drop_first().len() && z.drop_first()[j] == '\'';
                assert(z[j + 1] == '\'');
            }
        }
        lemma_unquote_quoted(z.drop_first(), r);
        assert(seq![z[0]] + z.drop_first() =~= z);
        match shell_unquote(r) {
            Some(x) => {
                assert(seq![z[0]] + (z.drop_first() + x) =~= z + x);
            },
            None => {},
        }
    } else {
        assert(w[0] == '\'');
        assert(w.drop_first() =~= r);
        match shell_unquote(r) {
            Some(x) => {
                assert(z + x =~= x);
            },
            None => {},
        }
    }
}

proof fn lemma_unquote_backslash(z: Seq<char>, r: Seq<char>)
    requires
        legal_arg(z),
    ensures
        shell_unquote(backslash_escaped(z) + r) == prepend_opt(z, shell_unquote(r)),
    decreases z.len(),
{
    if z.len() > 0 {
        let c = z[0];
        let rest = z.drop_first();
        assert(legal_arg(rest)) by {
            assert forall|i: int| 0 <= i < rest.len() implies char_class(#[trigger] rest[i]) < 2 by {
                assert(rest[i] == z[i + 1]);
            }
        }
        lemma_unquote_backslash(rest, r);
        let w = backslash_escaped(z) + r;
        assert(char_class(c) < 2);
        if char_class(c) == 1 {
            assert(w =~= seq!['\\', c] + (backslash_escaped(rest) + r));
            assert(w.skip(2) =~= backslash_escaped(rest) + r);
            assert(c != '\n');
        } else {
            assert(w =~= seq![c] + (backslash_escaped(rest) + r));
            assert(w.drop_first() =~= backslash_escaped(rest) + r);
            lemma_ordinary_is_plain(c);
            assert(c != '\\' && c != '\'');
        }
        assert(seq![c] + rest =~= z);
        match shell_unquote(r) {
            Some(x) => {
                assert(seq![c] + (rest + x) =~= z + x);
            },
            None => {},
        }
    } else {
        assert(backslash_escaped(z) + r =~= r);
        match shell_unquote(r) {
            Some(x) => {
                assert(z + x =~= x);
            },
            None => {},
        }
    }
}

/// Quoting is faithful: a POSIX shell reads the word that stands for a legal,
/// non-empty argument that does not begin with `~` back as exactly that
/// argument, behind `./` where it is a file name that begins with `-`; so a
/// file name never reaches the command as an option.
pub proof fn lemma_escaped_word_reads_back(z: Seq<char>, is_filename: bool)
    requires
        legal_arg(z),
        z.len() > 0,
        z[0] != '~',
    ensures
        shell_word(escaped_word(z, is_filename)) == Some(guard_prefix(z, is_filename) + z),
        is_filename ==> (guard_prefix(z, is_filename) + z)[0] != '-',
{
    let g = guard_prefix(z, is_filename);
    let empty = Seq::<char>::empty();
    assert(shell_unquote(empty) == Some(empty));
    assert forall|i: int| 0 <= i < g.len() implies sh_plain(#[trigger] g[i]) by {}
    if !needs_quoting(z, is_filename) {
        assert forall|i: int| 0 <= i < z.len() implies sh_plain(#[trigger] z[i]) by {
            assert(char_class(z[i]) < 2);
            lemma_ordinary_is_plain(z[i]);
        }
        lemma_unquote_plain(z, empty);
        assert(z + empty =~= z);
        assert(g =~= empty);
        assert(g + z =~= z);
    } else if z.contains('\'') {
        let w = g + backslash_escaped(z);
        lemma_unquote_backslash(z, empty);
        assert(backslash_escaped(z) + empty =~= backslash_escaped(z));
        lemma_unquote_plain(g, backslash_escaped(z));
        assert(z + empty =~= z);
        if g.len() == 0 {
            assert(w =~= backslash_escaped(z));
            assert(w[0] == escape_char(z[0])[0]);
        } else {
            assert(w[0] == '.');
        }
    } else {
        let w = seq!['\''] + g + z + seq!['\''];
        assert(!(g + z).contains('\'')) by {
            if (g + z).contains('\'') {
                let j = choose|j: int| 0 <= j < (g + z).len() && (g + z)[j] == '\'';
                if j >= g.len() {
                    assert(z[j - g.len()] == '\'');
                }
            }
        }
        lemma_unquote_quoted(g + z, empty);
        assert(w.drop_first() =~= (g + z) + seq!['\''] + empty);
        assert((g + z) + empty =~= g + z);
    }
}

/// An argument is legal exactly when each of its UTF-8 bytes is.
pub proof fn lemma_legal_iff_bytes(z: Seq<char>)
    ensures
        legal_arg(z) <==> forall|i: int|
            0 <= i < utf8_of(z).len() ==> byte_class(#[trigger] utf8_of(z)[i]) < 2,
{
    if legal_arg(z) {
        assert forall|j: int| 0 <= j < z.len() implies '\0' <= #[trigger] z[j] <= '\u{7f}' by {
            assert(char_class(z[j]) < 2);
        }
        is_ascii_chars_encode_utf8(z);
        assert forall|i: int| 0 <= i < utf8_of(z).len() implies byte_class(
            #[trigger] utf8_of(z)[i],
        ) < 2 by {
            assert(char_class(z[i]) < 2);
        }
    }
    if forall|i: int| 0 <= i < utf8_of(z).len() ==> byte_class(#[trigger] utf8_of(z)[i]) < 2 {
        lemma_small_bytes_are_ascii(z);
        assert forall|j: int| 0 <= j < z.len() implies char_class(#[trigger] z[j]) < 2 by {
            assert(utf8_of(z)[j] == z[j] as u8);
        }
    }
}

/// A legal argument that `sh` reads back as one word: not empty, and not
/// beginning with `~`.
#[verifier::opaque]
pub open spec fn sh_safe_arg(z: Seq<char>) -> bool {
    legal_arg(z) && z.len() > 0 && z[0] != '~'
}

/// The argument that the started program receives for `z`: a file name that
/// begins with `-` arrives as `./` followed by the name.
pub open spec fn as_file_arg(z: Seq<char>, is_filename: bool) -> Seq<char> {
    if is_filename && z.len() > 0 && z[0] == '-' {
        seq!['.', '/'] + z
    } else {
        z
    }
}

/// Words joined by single spaces.
pub open spec fn join_words(ws: Seq<Seq<char>>) -> Seq<char>
    decreases ws.len(),
{
    if ws.len() == 0 {
        Seq::empty()
    } else if ws.len() == 1 {
        ws[0]
    } else {
        join_words(ws.drop_last()) + seq![' '] + ws.last()
    }
}

/// A POSIX shell splits the command line `cmd` into words that it reads as
/// the arguments `args`, in order.
#[verifier::opaque]
pub open spec fn sh_reads_as(cmd: Seq<char>, args: Seq<Seq<char>>) -> bool {
    exists|ws: Seq<Seq<char>>|
        ws.len() == args.len() && join_words(ws) == cmd && forall|k: int|
            0 <= k < ws.len() ==> shell_word(#[trigger] ws[k]) == Some(args[k])
}

/// The empty command line holds no argument.
pub proof fn lemma_sh_reads_empty()
    ensures
        sh_reads_as(Seq::empty(), Seq::empty()),
{
    reveal(sh_reads_as);
    let ws = Seq::<Seq<char>>::empty();
    assert(join_words(ws) == Seq::<char>::empty());
}

/// Appending a word that the shell reads as `x` adds `x` to the arguments.
pub proof fn lemma_sh_reads_push_word(s: Seq<char>, args: Seq<Seq<char>>, w: Seq<char>, x: Seq<char>)
    requires
        sh_reads_as(s, args),
        shell_word(w) == Some(x),
    ensures
        sh_reads_as(s + arg_separator(s) + w, args.push(x)),
{
    reveal(sh_reads_as);
    let ws = choose|ws: Seq<Seq<char>>|
        ws.len() == args.len() && join_words(ws) == s && forall|k: int|
            0 <= k < ws.len() ==> shell_word(#[trigger] ws[k]) == Some(args[k]);
    let ws2 = ws.push(w);
    assert(ws2.drop_last() =~= ws);
    if ws.len() == 0 {
        assert(s == Seq::<char>::empty());
        assert(join_words(ws2) == w);
        assert(s + arg_separator(s) + w =~= w);
    } else {
        assert(shell_word(ws.last()) == Some(args[ws.len() - 1]));
        assert(ws.last().len() > 0);
        if ws.len() == 1 {
            assert(s == ws[0]);
        } else {
            assert(s == join_words(ws.drop_last()) + seq![' '] + ws.last());
        }
        assert(s.len() > 0);
        assert(join_words(ws2) == s + seq![' '] + w);
    }
    assert forall|k: int| 0 <= k < ws2.len() implies shell_word(#[trigger] ws2[k]) == Some(
        args.push(x)[k],
    ) by {
        if k < ws.len() {
            assert(ws2[k] == ws[k]);
        }
    }
}

/// Appending a legal argument adds it, as the program receives it, to what
/// the shell reads.
pub proof fn lemma_sh_reads_with_arg(s: Seq<char>, args: Seq<Seq<char>>, z: Seq<char>, is_filename: bool)
    requires
        sh_reads_as(s, args),
        sh_safe_arg(z),
    ensures
        sh_reads_as(
            with_arg_on(s, z, is_filename, Platform::Posix),
            args.push(as_file_arg(z, is_filename)),
        ),
{
    reveal(sh_safe_arg);
    reveal(with_arg);
    reveal(with_arg_on);
    lemma_escaped_word_reads_back(z, is_filename);
    if is_filename && z.len() > 0 && z[0] == '-' {
        assert(guard_prefix(z, is_filename) + z == as_file_arg(z, is_filename));
    } else {
        assert(guard_prefix(z, is_filename) + z =~= as_file_arg(z, is_filename));
    }
    lemma_sh_reads_push_word(s, args, escaped_word(z, is_filename), as_file_arg(z, is_filename));
}

/// A command line that holds an argument is not empty.
pub proof fn lemma_sh_reads_nonempty(s: Seq<char>, args: Seq<Seq<char>>)
    requires
        sh_reads_as(s, args),
        args.len() > 0,
    ensures
        s.len() > 0,
{
    reveal(sh_reads_as);
    let ws = choose|ws: Seq<Seq<char>>|
        ws.len() == args.len() && join_words(ws) == s && forall|k: int|
            0 <= k < ws.len() ==> shell_word(#[trigger] ws[k]) == Some(args[k]);
    assert(shell_word(ws.last()) == Some(args[ws.len() - 1]));
    if ws.len() > 1 {
        assert(s == join_words(ws.drop_last()) + seq![' '] + ws.last());
    }
}

/// Appending, after a space, a word of characters that the shell takes
/// literally adds that word to the arguments.
pub proof fn lemma_sh_reads_plain(s: Seq<char>, args: Seq<Seq<char>>, w: Seq<char>)
    requires
        sh_reads_as(s, args),
        args.len() > 0,
        w.len() > 0,
        w[0] != '~',
        forall|i: int| 0 <= i < w.len() ==> sh_plain(#[trigger] w[i]),
    ensures
        sh_reads_as(s + seq![' '] + w, args.push(w)),
{
    lemma_sh_reads_nonempty(s, args);
    lemma_plain_word_reads(w);
    lemma_sh_reads_push_word(s, args, w, w);
}

/// A word of characters that the shell takes literally is read as itself.
pub proof fn lemma_plain_word_reads(w: Seq<char>)
    requires
        w.len() > 0,
        w[0] != '~',
        forall|i: int| 0 <= i < w.len() ==> sh_plain(#[trigger] w[i]),
    ensures
        shell_word(w) == Some(w),
{
    lemma_unquote_plain(w, Seq::empty());
    assert(w + Seq::<char>::empty() =~= w);
}

/// The first byte of `z_in` that may not occur in a shell argument, for the
/// message that reports it; `None` where the argument is legal.
pub fn first_illegal_byte(z_in: &str) -> (r: Option<u8>)
    ensures
        r is None <==> legal_arg(z_in@),
        r matches Some(c) ==> exists|i: int|
            0 <= i < z_in.spec_bytes().len() && z_in.spec_bytes()[i] == c && byte_class(c) >= 2
                && forall|j: int| 0 <= j < i ==> byte_class(#[trigger] z_in.spec_bytes()[j]) < 2,
{
    let b = z_in.as_bytes();
    let mut i: usize = 0;
    while i < b.len()
        invariant
            b@ == z_in.spec_bytes(),
            i <= b@.len(),
            forall|j: int| 0 <= j < i ==> byte_class(#[trigger] b@[j]) < 2,
        decreases b@.len() - i,
    {
        if safe_char(b[i]) >= 2 {
            proof {
                lemma_legal_iff_bytes(z_in@);
                assert(byte_class(utf8_of(z_in@)[i as int]) >= 2);
            }
            return Some(b[i]);
        }
        i = i + 1;
    }
    proof {
        lemma_legal_iff_bytes(z_in@);
    }
    None
}

/// The line that `--arg-escape-check` prints: the first `n` arguments, each
/// quoted as a file name except the one at `current`.
pub open spec fn escape_check_line(
    args: Seq<Seq<char>>,
    current: int,
    n: int,
    platform: Platform,
) -> Seq<char>
    decreases n,
{
    if n <= 0 {
        Seq::empty()
    } else {
        with_arg_on(
            escape_check_line(args, current, n - 1, platform),
            args[n - 1],
            n - 1 != current,
            platform,
        )
    }
}

/// The `--arg-escape-check` line for `sh` reads back as every argument, in
/// order, each as the program receives it: a file name except the option at
/// `current`.
pub proof fn lemma_escape_check_reads(args: Seq<Seq<char>>, current: int, n: int)
    requires
        0 <= n <= args.len(),
        forall|k: int| 0 <= k < n ==> sh_safe_arg(#[trigger] args[k]),
    ensures
        sh_reads_as(
            escape_check_line(args, current, n, Platform::Posix),
            Seq::new(n as nat, |k: int| as_file_arg(args[k], k != current)),
        ),
    decreases n,
{
    if n == 0 {
        lemma_sh_reads_empty();
        assert(Seq::new(0, |k: int| as_file_arg(args[k], k != current)) =~= Seq::<Seq<char>>::empty());
    } else {
        lemma_escape_check_reads(args, current, n - 1);
        let prev = Seq::new((n - 1) as nat, |k: int| as_file_arg(args[k], k != current));
        assert(sh_safe_arg(args[n - 1]));
        lemma_sh_reads_with_arg(
            escape_check_line(args, current, n - 1, Platform::Posix),
            prev,
            args[n - 1],
            n - 1 != current,
        );
        assert(prev.push(as_file_arg(args[n - 1], n - 1 != current)) =~= Seq::new(
            n as nat,
            |k: int| as_file_arg(args[k], k != current),
        ));
    }
}

/// The line that `--arg-escape-check` at index `current` prints: every
/// argument appended as `append_escaped_arg_on` quotes it for `platform`, each as a file name
/// except the option itself.
pub fn arg_escape_check(args: &Vec<String>, current: usize, platform: Platform) -> (line: String)
    ensures
        line@ == escape_check_line(
            args@.map_values(|a: String| a@),
            current as int,
            args@.len() as int,
            platform,
        ),
{
    let ghost av = args@.map_values(|a: String| a@);
    let mut s = String::new();
    let mut k: usize = 0;
    while k < args.len()
        invariant
            av == args@.map_values(|a: String| a@),
            k <= args@.len(),
            s@ == escape_check_line(av, current as int, k as int, platform),
        decreases args@.len() - k,
    {
        assert(av[k as int] == args@[k as int]@);
        append_escaped_arg_on(&mut s, args[k].as_str(), k != current, platform);
        k = k + 1;
    }
    s
}

/// The class of a byte, as `byte_class` states it.
pub fn safe_char(b: u8) -> (c: u8)
    ensures
        c == byte_class(b),
{
    if b < 0x20 || (0x80 <= b && b < 0xc0) {
        2
    } else if b >= 0xf0 {
        5
    } else if b >= 0xe0 {
        4
    } else if b >= 0xc0 {
        3
    } else if b <= 0x2a || b == 0x3b || b == 0x3c || b == 0x3e || b == 0x3f || b == 0x40 || (0x5b
        <= b && b <= 0x5e) || b == 0x60 || (0x7b <= b && b <= 0x7d) || b == 0x7f {
        1
    } else {
        0
    }
}

proof fn lemma_backslash_escaped_push(z: Seq<char>, c: char)
    ensures
        backslash_escaped(z.push(c)) == backslash_escaped(z) + escape_char(c),
    decreases z.len(),
{
    let zc = z.push(c);
    if z.len() == 0 {
        assert(zc.drop_first() =~= Seq::<char>::empty());
        assert(zc[0] == c);
        assert(backslash_escaped(zc.drop_first()) =~= Seq::<char>::empty());
        assert(backslash_escaped(zc) =~= escape_char(c) + Seq::<char>::empty());
        assert(backslash_escaped(zc) =~= backslash_escaped(z) + escape_char(c));
    } else {
        lemma_backslash_escaped_push(z.drop_first(), c);
        assert(zc.drop_first() =~= z.drop_first().push(c));
        assert(zc[0] == z[0]);
        assert(backslash_escaped(zc) =~= escape_char(z[0]) + (backslash_escaped(z.drop_first())
            + escape_char(c)));
        assert(backslash_escaped(zc) =~= backslash_escaped(z) + escape_char(c));
    }
}

/// Appends `z_in` to the POSIX shell command line `s` as one argument,
/// quoted as `sh` needs it, after a space where `s` is not empty.  Returns `false`
/// and leaves `s` unchanged where `z_in` holds a byte that may not occur in an
/// argument.
pub fn append_escaped_arg(s: &mut String, z_in: &str, is_filename: bool) -> (ok: bool)
    ensures
        ok == legal_arg(z_in@),
        final(s)@ == with_arg(old(s)@, z_in@, is_filename),
{
    proof {
        reveal(with_arg);
    }
    let b = z_in.as_bytes();
    let ghost z = z_in@;
    let starts_with_dash = b.len() > 0 && b[0] == DASH;
    let mut need_escape = is_filename && starts_with_dash;
    let mut has_quote = false;
    let mut i: usize = 0;
    while i < b.len()
        invariant
            b@ == utf8_of(z),
            z == z_in@,
            i <= b@.len(),
            forall|j: int| 0 <= j < i ==> byte_class(#[trigger] b@[j]) < 2,
            need_escape == ((is_filename && starts_with_dash) || exists|j: int|
                0 <= j < i && byte_class(#[trigger] b@[j]) == 1),
            has_quote == exists|j: int| 0 <= j < i && #[trigger] b@[j] == QUOTE,
            starts_with_dash == (b@.len() > 0 && b@[0] == DASH),
        decreases b@.len() - i,
    {
        let c = safe_char(b[i]);
        if c >= 2 {
            proof {
                reveal(with_arg);
                if legal_arg(z) {
                    is_ascii_chars_encode_utf8(z);
                    assert(char_class(z[i as int]) < 2);
                }
            }
            return false;
        }
        if c != 0 {
            need_escape = true;
        }
        if b[i] == QUOTE {
            has_quote = true;
        }
        i = i + 1;
    }
    proof {
        lemma_small_bytes_are_ascii(z);
        assert forall|j: int| 0 <= j < z.len() implies char_class(#[trigger] z[j]) == byte_class(
            b@[j],
        ) by {
            assert(utf8_of(z)[j] == z[j] as u8);
        }
        assert(legal_arg(z));
        assert(need_escape == needs_quoting(z, is_filename)) by {
            if z.len() > 0 {
                assert(utf8_of(z)[0] == z[0] as u8);
            }
            if need_escape && !dash_guard(z, is_filename) {
                let j = choose|j: int| 0 <= j < i && byte_class(#[trigger] b@[j]) == 1;
                assert(char_class(z[j]) == 1);
            }
            if needs_quoting(z, is_filename) && !dash_guard(z, is_filename) {
                let j = choose|j: int| 0 <= j < z.len() && char_class(#[trigger] z[j]) == 1;
                assert(byte_class(b@[j]) == 1);
            }
        }
        assert(has_quote == z.contains('\'')) by {
            if has_quote {
                let j = choose|j: int| 0 <= j < i && #[trigger] b@[j] == QUOTE;
                assert(utf8_of(z)[j] == z[j] as u8);
                assert(z[j] == '\'');
            }
            if z.contains('\'') {
                let j = choose|j: int| 0 <= j < z.len() && z[j] == '\'';
                assert(utf8_of(z)[j] == z[j] as u8);
                assert(b@[j] == QUOTE);
            }
        }
    }
    let ghost s0 = s@;
    if !s.as_str().is_empty() {
        s.append(" ");
        proof {
            reveal_strlit(" ");
        }
    }
    assert(s@ == s0 + arg_separator(s0));
    let ghost s1 = s@;
    let guard = is_filename && starts_with_dash;
    assert(guard == dash_guard(z, is_filename)) by {
        if z.len() > 0 {
            assert(utf8_of(z)[0] == z[0] as u8);
        }
    }
    if !need_escape {
        s.append(z_in);
    } else if has_quote {
        if guard {
            s.append("./");
            proof {
                reveal_strlit("./");
            }
        }
        assert(s@ == s1 + guard_prefix(z, is_filename));
        let ghost s2 = s@;
        let mut j: usize = 0;
        assert(z.take(0) =~= Seq::<char>::empty());
        while j < b.len()
            invariant
                b@ == utf8_of(z),
                z == z_in@,
                is_ascii_chars(z),
                b@.len() == z.len(),
                j <= b@.len(),
                forall|k: int| 0 <= k < z.len() ==> char_class(#[trigger] z[k]) == byte_class(b@[k]),
                s@ == s2 + backslash_escaped(z.take(j as int)),
            decreases b@.len() - j,
        {
            let c = safe_char(b[j]);
            if c != 0 && c != 2 {
                s.append("\\");
                proof {
                    reveal_strlit("\\");
                }
            }
            let one = z_in.substring_ascii(j, j + 1);
            s.append(one);
            proof {
                assert(z.take(j + 1) =~= z.take(j as int).push(z[j as int]));
                lemma_backslash_escaped_push(z.take(j as int), z[j as int]);
                assert(one@ =~= seq![z[j as int]]);
            }
            j = j + 1;
        }
        assert(z.take(z.len() as int) =~= z);
    } else {
        s.append("'");
        proof {
            reveal_strlit("'");
        }
        if guard {
            s.append("./");
            proof {
                reveal_strlit("./");
            }
        }
        s.append(z_in);
        s.append("'");
    }
    assert(s@ =~= s0 + arg_separator(s0) + escaped_word(z, is_filename));
    true
}

/// The class of a byte in a `cmd.exe` argument, as `windows_byte_class`
/// states it.
pub fn safe_char_windows(b: u8) -> (c: u8)
    ensures
        c == windows_byte_class(b),
{
    if b == 0x21 || b == 0x5c {
        0
    } else {
        safe_char(b)
    }
}

proof fn lemma_windows_escaped_push(z: Seq<char>, c: char, f: bool)
    ensures
        windows_escaped(z.push(c), f) == windows_escaped(z, f) + windows_escape_char(c, f),
    decreases z.len(),
{
    let zc = z.push(c);
    if z.len() == 0 {
        assert(zc.drop_first() =~= Seq::<char>::empty());
        assert(zc[0] == c);
        assert(windows_escaped(zc.drop_first(), f) =~= Seq::<char>::empty());
        assert(windows_escaped(zc, f) =~= windows_escape_char(c, f) + Seq::<char>::empty());
        assert(windows_escaped(zc, f) =~= windows_escaped(z, f) + windows_escape_char(c, f));
    } else {
        lemma_windows_escaped_push(z.drop_first(), c, f);
        assert(zc.drop_first() =~= z.drop_first().push(c));
        assert(zc[0] == z[0]);
        assert(windows_escaped(zc, f) =~= windows_escape_char(z[0], f) + (windows_escaped(
            z.drop_first(),
            f,
        ) + windows_escape_char(c, f)));
        assert(windows_escaped(zc, f) =~= windows_escaped(z, f) + windows_escape_char(c, f));
    }
}

/// Appends `z_in` to the `cmd.exe` command line `s` as one argument, in
/// double quotes where needed, after a space where `s` is not empty.  Returns
/// `false` and leaves `s` unchanged where `z_in` holds a byte that may not
/// occur in an argument.
pub fn append_escaped_arg_windows(s: &mut String, z_in: &str, is_filename: bool) -> (ok: bool)
    ensures
        ok == legal_arg(z_in@),
        final(s)@ == with_arg_on(old(s)@, z_in@, is_filename, Platform::Windows),
{
    proof {
        reveal(with_arg_on);
    }
    let b = z_in.as_bytes();
    let ghost z = z_in@;
    let starts_with_dash = b.len() > 0 && b[0] == DASH;
    let mut need_escape = is_filename && starts_with_dash;
    let mut i: usize = 0;
    while i < b.len()
        invariant
            b@ == utf8_of(z),
            z == z_in@,
            i <= b@.len(),
            forall|j: int| 0 <= j < i ==> byte_class(#[trigger] b@[j]) < 2,
            need_escape == ((is_filename && starts_with_dash) || exists|j: int|
                0 <= j < i && windows_byte_class(#[trigger] b@[j]) == 1),
            starts_with_dash == (b@.len() > 0 && b@[0] == DASH),
        decreases b@.len() - i,
    {
        let c = safe_char_windows(b[i]);
        if c >= 2 {
            proof {
                reveal(with_arg_on);
                if legal_arg(z) {
                    is_ascii_chars_encode_utf8(z);
                    assert(char_class(z[i as int]) < 2);
                }
            }
            return false;
        }
        if c != 0 {
            need_escape = true;
        }
        i = i + 1;
    }
    proof {
        lemma_small_bytes_are_ascii(z);
        assert forall|j: int| 0 <= j < z.len() implies windows_char_class(#[trigger] z[j])
            == windows_byte_class(b@[j]) && char_class(z[j]) == byte_class(b@[j]) by {
            assert(utf8_of(z)[j] == z[j] as u8);
        }
        assert(legal_arg(z));
        assert(need_escape == windows_needs_quoting(z, is_filename)) by {
            if z.len() > 0 {
                assert(utf8_of(z)[0] == z[0] as u8);
            }
            if need_escape && !dash_guard(z, is_filename) {
                let j = choose|j: int| 0 <= j < i && windows_byte_class(#[trigger] b@[j]) == 1;
                assert(windows_char_class(z[j]) == 1);
            }
            if windows_needs_quoting(z, is_filename) && !dash_guard(z, is_filename) {
                let j = choose|j: int|
                    0 <= j < z.len() && windows_char_class(#[trigger] z[j]) == 1;
                assert(windows_byte_class(b@[j]) == 1);
            }
        }
    }
    let ghost s0 = s@;
    if !s.as_str().is_empty() {
        s.append(" ");
        proof {
            reveal_strlit(" ");
        }
    }
    assert(s@ == s0 + arg_separator(s0));
    let ghost s1 = s@;
    let guard = is_filename && starts_with_dash;
    let starts_with_slash = b.len() > 0 && b[0] == SLASH;
    assert(guard == dash_guard(z, is_filename) && starts_with_slash == (z.len() > 0 && z[0]
        == '/')) by {
        if z.len() > 0 {
            assert(utf8_of(z)[0] == z[0] as u8);
        }
    }
    if !need_escape {
        s.append(z_in);
    } else {
        s.append("\"");
        proof {
            reveal_strlit("\"");
        }
        if guard {
            s.append(".\\");
            proof {
                reveal_strlit(".\\");
            }
        } else if starts_with_slash {
            s.append(".");
            proof {
                reveal_strlit(".");
            }
        }
        assert(s@ == s1 + seq!['"'] + windows_prefix(z, is_filename));
        let ghost s2 = s@;
        let mut j: usize = 0;
        assert(z.take(0) =~= Seq::<char>::empty());
        while j < b.len()
            invariant
                b@ == utf8_of(z),
                z == z_in@,
                is_ascii_chars(z),
                b@.len() == z.len(),
                forall|k: int| 0 <= k < z.len() ==> #[trigger] b@[k] == z[k] as u8,
                j <= b@.len(),
                s@ == s2 + windows_escaped(z.take(j as int), is_filename),
            decreases b@.len() - j,
        {
            let one = z_in.substring_ascii(j, j + 1);
            s.append(one);
            let c = b[j];
            assert(c == z[j as int] as u8);
            if c == 0x22 {
                s.append("\"");
                proof {
                    reveal_strlit("\"");
                }
            } else if c == 0x5c {
                s.append("\\");
                proof {
                    reveal_strlit("\\");
                }
            } else if c == 0x25 && is_filename {
                s.append("%cd:~,%");
                proof {
                    reveal_strlit("%cd:~,%");
                }
            }
            proof {
                assert(one@ =~= seq![z[j as int]]);
                assert(z.take(j + 1) =~= z.take(j as int).push(z[j as int]));
                lemma_windows_escaped_push(z.take(j as int), z[j as int], is_filename);
                assert(s@ =~= s2 + windows_escaped(z.take(j as int), is_filename)
                    + windows_escape_char(z[j as int], is_filename));
            }
            j = j + 1;
        }
        assert(z.take(z.len() as int) =~= z);
        s.append("\"");
    }
    assert(s@ =~= s0 + arg_separator(s0) + windows_word(z, is_filename));
    true
}

/// Appends `z_in` to the command line `s` as one argument, quoted as the
/// shell of `platform` needs it.
pub fn append_escaped_arg_on(s: &mut String, z_in: &str, is_filename: bool, platform: Platform) -> (ok: bool)
    ensures
        ok == legal_arg(z_in@),
        final(s)@ == with_arg_on(old(s)@, z_in@, is_filename, platform),
{
    proof {
        reveal(with_arg_on);
    }
    match platform {
        Platform::Posix => append_escaped_arg(s, z_in, is_filename),
        Platform::Windows => append_escaped_arg_windows(s, z_in, is_filename),
    }
}

} // verus!
