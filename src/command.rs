use vstd::prelude::*;
use crate::text::{decode_lossy, is_white, text_of, trim, trim_end, trim_start, trimmed};
use vstd::utf8::{
    char_is_scalar, encode_scalar, encode_utf8, encode_utf8_decode_utf8, encode_utf8_valid_utf8,
    has_width_1_encoding, is_ascii_chars, is_ascii_chars_encode_utf8,
};

verus! {

/// What a session was asked to do, read from the first line it receives.
#[derive(PartialEq, Eq, Debug)]
pub enum Command {
    /// Receive the bytes that follow and store them under this name.
    Upload(String),
    /// Send the contents of the file of this name.
    Download(String),
    /// A line that names no known request; the text is kept for the log.
    Invalid(String),
}

/// A [`Command`] with its texts as character sequences.
pub enum CommandView {
    Upload(Seq<char>),
    Download(Seq<char>),
    Invalid(Seq<char>),
}

impl View for Command {
    type V = CommandView;

    open spec fn view(&self) -> CommandView {
        match self {
            Command::Upload(n) => CommandView::Upload(n@),
            Command::Download(n) => CommandView::Download(n@),
            Command::Invalid(t) => CommandView::Invalid(t@),
        }
    }
}

/// Which way a file travels, seen from the side that starts the connection.
#[derive(Clone, Copy, PartialEq, Eq, Structural, Debug)]
pub enum Direction {
    Upload,
    Download,
}

pub const NEWLINE: u8 = 10;

/// `UPLOAD` and the one space after it.
pub open spec fn upload_word() -> Seq<char> {
    seq!['U', 'P', 'L', 'O', 'A', 'D', ' ']
}

/// `DOWNLOAD` and the one space after it.
pub open spec fn download_word() -> Seq<char> {
    seq!['D', 'O', 'W', 'N', 'L', 'O', 'A', 'D', ' ']
}

pub open spec fn starts_with(t: Seq<char>, w: Seq<char>) -> bool {
    w.len() <= t.len() && t.subrange(0, w.len() as int) == w
}

/// The command that a line of text stands for: the line is trimmed; a keyword
/// and one space then lead the file name, itself trimmed.
pub open spec fn command_of(line: Seq<char>) -> CommandView {
    let t = trimmed(line);
    if starts_with(t, upload_word()) {
        CommandView::Upload(trimmed(t.subrange(7, t.len() as int)))
    } else if starts_with(t, download_word()) {
        CommandView::Download(trimmed(t.subrange(9, t.len() as int)))
    } else {
        CommandView::Invalid(t)
    }
}

/// The index of the first newline of `b` at or after `i`, or the length of
/// `b` when there is none.
pub open spec fn line_end_from(b: Seq<u8>, i: int) -> int
    decreases b.len() - i,
{
    if 0 <= i < b.len() && b[i] != NEWLINE {
        line_end_from(b, i + 1)
    } else {
        i
    }
}

pub open spec fn line_end(b: Seq<u8>) -> int {
    line_end_from(b, 0)
}

/// The bytes before the first newline (all of them if there is none).
pub open spec fn first_line(b: Seq<u8>) -> Seq<u8> {
    b.subrange(0, line_end(b))
}

/// The bytes after the first newline (none if there is no newline).
pub open spec fn after_line(b: Seq<u8>) -> Seq<u8> {
    if line_end(b) < b.len() {
        b.subrange(line_end(b) + 1, b.len() as int)
    } else {
        Seq::empty()
    }
}

/// The keyword of `dir` and the one space after it.
pub open spec fn keyword(dir: Direction) -> Seq<char> {
    match dir {
        Direction::Upload => upload_word(),
        Direction::Download => download_word(),
    }
}

/// The command that asks for `dir` on the file `name`.
pub open spec fn command_for(dir: Direction, name: Seq<char>) -> CommandView {
    match dir {
        Direction::Upload => CommandView::Upload(name),
        Direction::Download => CommandView::Download(name),
    }
}

/// The bytes that open a connection for `dir` on the file `name`: the
/// keyword, one space, the name and a newline, in UTF-8.
pub open spec fn request_bytes(dir: Direction, name: Seq<char>) -> Seq<u8> {
    encode_utf8(keyword(dir)) + encode_utf8(name) + seq![NEWLINE]
}

/// A name that the server reads back unchanged: not empty, no white space
/// at either end, no newline.
pub open spec fn plain_name(name: Seq<char>) -> bool {
    &&& name.len() > 0
    &&& !is_white(name[0])
    &&& !is_white(name.last())
    &&& forall|i: int| 0 <= i < name.len() ==> name[i] != '\n'
}

proof fn lemma_keyword_bytes(dir: Direction)
    ensures
        encode_utf8(keyword(dir)) == match dir {
            Direction::Upload => seq![85u8, 80, 76, 79, 65, 68, 32],
            Direction::Download => seq![68u8, 79, 87, 78, 76, 79, 65, 68, 32],
        },
        forall|j: int| 0 <= j < encode_utf8(keyword(dir)).len() ==> encode_utf8(keyword(dir))[j] != NEWLINE,
{
    let k = keyword(dir);
    assert(is_ascii_chars(k));
    is_ascii_chars_encode_utf8(k);
    match dir {
        Direction::Upload => {
            assert(encode_utf8(k) =~= seq![85u8, 80, 76, 79, 65, 68, 32]);
        },
        Direction::Download => {
            assert(encode_utf8(k) =~= seq![68u8, 79, 87, 78, 76, 79, 65, 68, 32]);
        },
    }
}

proof fn lemma_scalar_no_newline(c: char)
    requires
        c != '\n',
    ensures
        forall|j: int|
            0 <= j < encode_scalar(c as u32).len() ==> #[trigger] encode_scalar(c as u32)[j] != NEWLINE,
{
    let s = c as u32;
    char_is_scalar(c);
    if has_width_1_encoding(s) {
        assert(s != 10u32);
        assert((s & 0x7F) as u8 != 10u8) by (bit_vector)
            requires
                s <= 0x7F,
                s != 10u32,
        ;
    } else {
        let y1 = ((s >> 6) & 0x1F) as u8;
        let y2 = (s & 0x3F) as u8;
        let y3 = ((s >> 12) & 0x0F) as u8;
        let y4 = ((s >> 6) & 0x3F) as u8;
        let y5 = ((s >> 18) & 0x7) as u8;
        let y6 = ((s >> 12) & 0x3F) as u8;
        assert((0xC0u8 | y1) != 10u8) by (bit_vector);
        assert((0x80u8 | y2) != 10u8) by (bit_vector);
        assert((0xE0u8 | y3) != 10u8) by (bit_vector);
        assert((0x80u8 | y4) != 10u8) by (bit_vector);
        assert((0xF0u8 | y5) != 10u8) by (bit_vector);
        assert((0x80u8 | y6) != 10u8) by (bit_vector);
    }
}

proof fn lemma_no_newline(name: Seq<char>)
    requires
        forall|i: int| 0 <= i < name.len() ==> name[i] != '\n',
    ensures
        forall|j: int| 0 <= j < encode_utf8(name).len() ==> encode_utf8(name)[j] != NEWLINE,
    decreases name.len(),
{
    if name.len() > 0 {
        lemma_scalar_no_newline(name[0]);
        let rest = name.drop_first();
        assert forall|i: int| 0 <= i < rest.len() implies rest[i] != '\n' by {
            assert(rest[i] == name[i + 1]);
        }
        lemma_no_newline(rest);
        let x = encode_scalar(name[0] as u32);
        let e = encode_utf8(name);
        assert(e == x + encode_utf8(rest));
        assert forall|j: int| 0 <= j < e.len() implies e[j] != NEWLINE by {
            if j < x.len() {
                assert(e[j] == x[j]);
            } else {
                assert(e[j] == encode_utf8(rest)[j - x.len()]);
            }
        }
    }
}

proof fn lemma_encode_append(a: Seq<char>, b: Seq<char>)
    ensures
        encode_utf8(a + b) == encode_utf8(a) + encode_utf8(b),
    decreases a.len(),
{
    if a.len() == 0 {
        assert(a + b =~= b);
        assert(encode_utf8(a) + encode_utf8(b) =~= encode_utf8(b));
    } else {
        assert((a + b)[0] == a[0]);
        assert((a + b).drop_first() =~= a.drop_first() + b);
        lemma_encode_append(a.drop_first(), b);
        let x = encode_scalar(a[0] as u32);
        assert(x + (encode_utf8(a.drop_first()) + encode_utf8(b)) =~= (x + encode_utf8(
            a.drop_first(),
        )) + encode_utf8(b));
    }
}

proof fn lemma_line_end(b: Seq<u8>, i: int, k: int)
    requires
        0 <= i <= k < b.len(),
        b[k] == NEWLINE,
        forall|j: int| i <= j < k ==> b[j] != NEWLINE,
    ensures
        line_end_from(b, i) == k,
    decreases k - i,
{
    if i < k {
        lemma_line_end(b, i + 1, k);
    }
}

/// The server reads a request line that names a plain file name as the
/// command it was written for, whatever bytes follow it in the same read;
/// those bytes are the start of the payload.
pub proof fn request_is_read_back(dir: Direction, name: Seq<char>, rest: Seq<u8>)
    requires
        plain_name(name),
    ensures
        command_of(text_of(first_line(request_bytes(dir, name) + rest))) == command_for(dir, name),
        after_line(request_bytes(dir, name) + rest) == rest,
{
    let w = encode_utf8(keyword(dir));
    let e = encode_utf8(name);
    let b = request_bytes(dir, name) + rest;
    let k: int = (w.len() + e.len()) as int;
    lemma_keyword_bytes(dir);
    lemma_no_newline(name);
    assert(b[k] == NEWLINE);
    assert forall|j: int| 0 <= j < k implies b[j] != NEWLINE by {
        if j < w.len() {
            assert(b[j] == w[j]);
        } else {
            assert(b[j] == e[j - w.len()]);
        }
    }
    lemma_line_end(b, 0, k);
    assert(first_line(b) =~= w + e);
    assert(after_line(b) =~= rest);
    let t = keyword(dir) + name;
    lemma_encode_append(keyword(dir), name);
    encode_utf8_valid_utf8(t);
    encode_utf8_decode_utf8(t);
    assert(text_of(first_line(b)) == t);
    assert(t[0] == keyword(dir)[0]);
    assert(!is_white(t[0]));
    assert(trim_start(t) == t);
    assert(t.last() == name.last());
    assert(trim_end(t) == t);
    assert(trimmed(t) == t);
    assert(trim_start(name) == name);
    assert(trim_end(name) == name);
    match dir {
        Direction::Upload => {
            assert(t.subrange(0, 7) =~= upload_word());
            assert(t.subrange(7, t.len() as int) =~= name);
        },
        Direction::Download => {
            assert(t.subrange(0, 7) != upload_word()) by {
                assert(t.subrange(0, 7)[0] != upload_word()[0]);
            }
            assert(t.subrange(0, 9) =~= download_word());
            assert(t.subrange(9, t.len() as int) =~= name);
        },
    }
}

fn has_prefix(t: &str, n: usize, w: &Vec<char>) -> (r: bool)
    requires
        n == t@.len(),
    ensures
        r == starts_with(t@, w@),
{
    if w.len() > n {
        return false;
    }
    let mut i: usize = 0;
    while i < w.len()
        invariant
            i <= w@.len() <= t@.len(),
            n == t@.len(),
            forall|k: int| 0 <= k < i ==> t@[k] == w@[k],
        decreases w@.len() - i,
    {
        if t.get_char(i) != w[i] {
            assert(t@.subrange(0, w@.len() as int)[i as int] != w@[i as int]);
            return false;
        }
        i += 1;
    }
    assert(t@.subrange(0, w@.len() as int) =~= w@);
    true
}

/// Reads a command line of text.
pub fn parse_command(line: &str) -> (c: Command)
    ensures
        c@ == command_of(line@),
{
    let t = trim(line);
    let n = t.unicode_len();
    let up: Vec<char> = vec!['U', 'P', 'L', 'O', 'A', 'D', ' '];
    let down: Vec<char> = vec!['D', 'O', 'W', 'N', 'L', 'O', 'A', 'D', ' '];
    assert(up@ =~= upload_word());
    assert(down@ =~= download_word());
    if has_prefix(t, n, &up) {
        let name = trim(t.substring_char(7, n));
        Command::Upload(name.to_owned())
    } else if has_prefix(t, n, &down) {
        let name = trim(t.substring_char(9, n));
        Command::Download(name.to_owned())
    } else {
        Command::Invalid(t.to_owned())
    }
}

/// Reads the first chunk of a connection: its first line, decoded lossily,
/// is the command; what follows the newline is the start of the payload.
pub fn read_command(chunk: &[u8]) -> (r: (Command, Vec<u8>))
    ensures
        r.0@ == command_of(text_of(first_line(chunk@))),
        r.1@ == after_line(chunk@),
{
    let n = chunk.len();
    let mut line: Vec<u8> = Vec::new();
    let mut i: usize = 0;
    while i < n && chunk[i] != NEWLINE
        invariant
            i <= n == chunk@.len(),
            line_end_from(chunk@, i as int) == line_end(chunk@),
            line@ == chunk@.subrange(0, i as int),
        decreases n - i,
    {
        line.push(chunk[i]);
        i += 1;
        assert(line@ =~= chunk@.subrange(0, i as int));
    }
    assert(line_end(chunk@) == i);
    let mut rest: Vec<u8> = Vec::new();
    if i < n {
        let mut j: usize = i + 1;
        while j < n
            invariant
                i < j <= n == chunk@.len(),
                rest@ == chunk@.subrange(i + 1, j as int),
            decreases n - j,
        {
            rest.push(chunk[j]);
            j += 1;
            assert(rest@ =~= chunk@.subrange(i + 1, j as int));
        }
    }
    assert(rest@ =~= after_line(chunk@));
    let text = decode_lossy(line.as_slice());
    (parse_command(text.as_str()), rest)
}

/// The line that asks the peer for `dir` on the file `name`.
pub fn request_line(dir: Direction, name: &str) -> (r: Vec<u8>)
    ensures
        r@ == request_bytes(dir, name@),
{
    let mut out: Vec<u8> = match dir {
        Direction::Upload => vec![85u8, 80, 76, 79, 65, 68, 32],
        Direction::Download => vec![68u8, 79, 87, 78, 76, 79, 65, 68, 32],
    };
    let ghost word = out@;
    let bytes = name.as_bytes();
    let mut i: usize = 0;
    while i < bytes.len()
        invariant
            i <= bytes@.len(),
            bytes@ == encode_utf8(name@),
            out@ == word + bytes@.subrange(0, i as int),
        decreases bytes@.len() - i,
    {
        out.push(bytes[i]);
        i += 1;
        assert(out@ =~= word + bytes@.subrange(0, i as int));
    }
    out.push(NEWLINE);
    proof {
        lemma_keyword_bytes(dir);
    }
    assert(bytes@.subrange(0, bytes@.len() as int) =~= bytes@);
    assert(out@ =~= request_bytes(dir, name@));
    out
}

} // verus!
