//! Text for the packet log and the hex dump panel.
use vstd::prelude::*;

use crate::Protocol;

verus! {

/// The five-character label of a protocol in the packet log.
pub open spec fn tag_spec(p: Protocol) -> Seq<char> {
    match p {
        Protocol::HTTP => "HTTP "@,
        Protocol::HTTPS => "HTTPS"@,
        Protocol::DNS => "DNS  "@,
        Protocol::SSH => "SSH  "@,
        Protocol::TCP => "TCP  "@,
        Protocol::UDP => "UDP  "@,
        Protocol::Unknown => "???  "@,
    }
}

/// The label of a protocol in the packet log.
pub fn protocol_tag(p: Protocol) -> (r: &'static str)
    ensures
        r@ == tag_spec(p),
{
    match p {
        Protocol::HTTP => "HTTP ",
        Protocol::HTTPS => "HTTPS",
        Protocol::DNS => "DNS  ",
        Protocol::SSH => "SSH  ",
        Protocol::TCP => "TCP  ",
        Protocol::UDP => "UDP  ",
        Protocol::Unknown => "???  ",
    }
}

/// Relies on String::push: appends one character.
#[verifier::external_body]
fn push_char(s: &mut String, c: char)
    ensures
        final(s)@ == old(s)@.push(c),
{
    s.push(c)
}

/// The lower-case hex digit for `n` below 16.
pub open spec fn hex_digit(n: int) -> char {
    if n < 10 {
        (48 + n) as u8 as char
    } else {
        (87 + n) as u8 as char
    }
}

fn hex_char(n: u64) -> (r: char)
    requires
        n < 16,
    ensures
        r == hex_digit(n as int),
{
    if n < 10 {
        (48 + n as u8) as char
    } else {
        (87 + n as u8) as char
    }
}

/// `n` in lower-case hex, padded with zeros to at least `width` digits.
pub open spec fn hex_padded(n: nat, width: nat) -> Seq<char>
    decreases n + width,
{
    if n < 16 && width <= 1 {
        seq![hex_digit(n as int)]
    } else {
        hex_padded(n / 16, if width > 0 {
            (width - 1) as nat
        } else {
            0
        }).push(hex_digit((n % 16) as int))
    }
}

fn push_hex_padded(s: &mut String, n: u64, width: u64)
    ensures
        final(s)@ == old(s)@ + hex_padded(n as nat, width as nat),
    decreases n + width,
{
    if n < 16 && width <= 1 {
        push_char(s, hex_char(n));
        assert(s@ =~= old(s)@ + hex_padded(n as nat, width as nat));
    } else {
        let w = if width > 0 {
            width - 1
        } else {
            0
        };
        push_hex_padded(s, n / 16, w);
        push_char(s, hex_char(n % 16));
        assert(s@ =~= old(s)@ + hex_padded(n as nat, width as nat));
    }
}

/// How a byte shows in the text column: printable ASCII and space as
/// themselves, anything else as '.'.
pub open spec fn shown(b: u8) -> char {
    if 0x20 <= b <= 0x7E {
        b as char
    } else {
        '.'
    }
}

fn show(b: u8) -> (r: char)
    ensures
        r == shown(b),
{
    if 0x20 <= b && b <= 0x7E {
        b as char
    } else {
        '.'
    }
}

/// The hex column of a chunk: two digits and a space per byte, with an
/// extra two spaces before the ninth byte.
pub open spec fn hex_cells(chunk: Seq<u8>) -> Seq<char>
    decreases chunk.len(),
{
    if chunk.len() == 0 {
        Seq::empty()
    } else {
        let b = chunk.last();
        hex_cells(chunk.drop_last()) + (if chunk.len() == 9 {
            seq![' ', ' ']
        } else {
            Seq::empty()
        }) + seq![hex_digit(b as int / 16), hex_digit(b as int % 16), ' ']
    }
}

proof fn lemma_hex_cells_len(chunk: Seq<u8>)
    ensures
        hex_cells(chunk).len() == 3 * chunk.len() + (if chunk.len() > 8 {
            2int
        } else {
            0
        }),
    decreases chunk.len(),
{
    if chunk.len() > 0 {
        lemma_hex_cells_len(chunk.drop_last());
    }
}

/// One line of the dump: the offset in at least eight hex digits, the hex
/// column padded to 50 characters, and the text column.
pub open spec fn dump_line(offset: nat, chunk: Seq<u8>) -> Seq<char> {
    let hex = hex_cells(chunk);
    hex_padded(offset, 8) + seq![' ', ' '] + hex + Seq::new(
        (50 - hex.len()) as nat,
        |i: int| ' ',
    ) + seq![' ', ' '] + chunk.map_values(|b: u8| shown(b))
}

/// The bytes of line `i` of a dump: sixteen from offset `16 * i`, fewer at
/// the end.
pub open spec fn dump_chunk(data: Seq<u8>, i: int) -> Seq<u8> {
    let end = if 16 * i + 16 < data.len() {
        16 * i + 16
    } else {
        data.len() as int
    };
    data.subrange(16 * i, end)
}

fn dump_line_of(data: &[u8], start: usize, end: usize) -> (r: String)
    requires
        start <= end <= data@.len(),
        end - start <= 16,
    ensures
        r@ == dump_line(start as nat, data@.subrange(start as int, end as int)),
{
    let ghost chunk = data@.subrange(start as int, end as int);
    let mut s = String::new();
    push_hex_padded(&mut s, start as u64, 8);
    push_char(&mut s, ' ');
    push_char(&mut s, ' ');
    let ghost head = s@;
    let mut j: usize = start;
    while j < end
        invariant
            start <= j <= end,
            end <= data@.len(),
            end - start <= 16,
            chunk == data@.subrange(start as int, end as int),
            s@ == head + hex_cells(chunk.subrange(0, j - start)),
        decreases end - j,
    {
        let b = data[j];
        proof {
            let part = chunk.subrange(0, j - start + 1);
            assert(part.drop_last() =~= chunk.subrange(0, j - start));
            assert(part.last() == b);
        }
        if j - start == 8 {
            push_char(&mut s, ' ');
            push_char(&mut s, ' ');
        }
        push_char(&mut s, hex_char(b as u64 / 16));
        push_char(&mut s, hex_char(b as u64 % 16));
        push_char(&mut s, ' ');
        proof {
            let part = chunk.subrange(0, j - start + 1);
            assert(s@ =~= head + hex_cells(part));
        }
        j += 1;
    }
    assert(chunk.subrange(0, (end - start) as int) =~= chunk);
    proof {
        lemma_hex_cells_len(chunk);
    }
    let n = end - start;
    let used: usize = 3 * n + if n > 8 {
        2
    } else {
        0
    };
    let ghost with_hex = s@;
    let mut p: usize = used;
    while p < 50
        invariant
            used <= p <= 50,
            s@ == with_hex + Seq::new((p - used) as nat, |i: int| ' '),
        decreases 50 - p,
    {
        push_char(&mut s, ' ');
        p += 1;
        assert(s@ =~= with_hex + Seq::new((p - used) as nat, |i: int| ' '));
    }
    push_char(&mut s, ' ');
    push_char(&mut s, ' ');
    let ghost with_gap = s@;
    let mut k: usize = start;
    while k < end
        invariant
            start <= k <= end,
            end <= data@.len(),
            chunk == data@.subrange(start as int, end as int),
            s@ == with_gap + chunk.subrange(0, k - start).map_values(|b: u8| shown(b)),
        decreases end - k,
    {
        push_char(&mut s, show(data[k]));
        k += 1;
        assert(s@ =~= with_gap + chunk.subrange(0, k - start).map_values(|b: u8| shown(b)));
    }
    assert(s@ =~= dump_line(start as nat, chunk));
    s
}

/// The hex dump of `data`, sixteen bytes per line.
pub fn hex_dump(data: &[u8]) -> (r: Vec<String>)
    ensures
        r@.len() == (data@.len() + 15) / 16,
        forall|i: int|
            0 <= i < r@.len() ==> (#[trigger] r@[i])@ == dump_line(
                (16 * i) as nat,
                dump_chunk(data@, i),
            ),
{
    let mut lines: Vec<String> = Vec::new();
    let n = data.len();
    let mut start: usize = 0;
    while start < n
        invariant
            start <= n,
            n == data@.len(),
            start == 16 * lines@.len() || (start == n && lines@.len() == (n + 15) / 16),
            start < n ==> start == 16 * lines@.len(),
            start == n ==> lines@.len() == (n + 15) / 16,
            start % 16 == 0 || start == n,
            lines@.len() == (start + 15) / 16,
            forall|i: int|
                0 <= i < lines@.len() ==> (#[trigger] lines@[i])@ == dump_line(
                    (16 * i) as nat,
                    dump_chunk(data@, i),
                ),
        decreases n - start,
    {
        let end = if n - start > 16 {
            start + 16
        } else {
            n
        };
        let line = dump_line_of(data, start, end);
        proof {
            assert(start == 16 * lines@.len());
        }
        lines.push(line);
        start = end;
    }
    lines
}

} // verus!
