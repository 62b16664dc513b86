use vstd::prelude::*;

verus! {

/// The lowercase hexadecimal digit for `d` (below 16).
pub open spec fn hex_digit(d: nat) -> u8 {
    if d < 10 {
        (48 + d) as u8
    } else {
        (87 + d) as u8
    }
}

/// How one byte is shown in ASCII: tab, carriage return, newline, backslash and
/// both quotes behind a backslash; other printable ASCII as itself; every
/// other byte as `\x` and two lowercase hexadecimal digits.
pub open spec fn escape_byte(b: u8) -> Seq<u8> {
    if b == 9 {
        seq![92u8, 116u8]
    } else if b == 13 {
        seq![92u8, 114u8]
    } else if b == 10 {
        seq![92u8, 110u8]
    } else if b == 92 {
        seq![92u8, 92u8]
    } else if b == 39 {
        seq![92u8, 39u8]
    } else if b == 34 {
        seq![92u8, 34u8]
    } else if 32 <= b <= 126 {
        seq![b]
    } else {
        seq![92u8, 120u8, hex_digit((b / 16) as nat), hex_digit((b % 16) as nat)]
    }
}

/// The bytes `s`, each shown as [`escape_byte`] shows it.
pub open spec fn escaped(s: Seq<u8>) -> Seq<u8>
    decreases s.len(),
{
    if s.len() == 0 {
        Seq::empty()
    } else {
        escaped(s.drop_last()) + escape_byte(s.last())
    }
}

/// The reply of the echo server to the bytes `s` it read:
/// `echo: "<escaped bytes>"` and a newline.
pub open spec fn echo_line(s: Seq<u8>) -> Seq<u8> {
    seq![101u8, 99u8, 104u8, 111u8, 58u8, 32u8, 34u8] + escaped(s) + seq![34u8, 10u8]
}

fn hex_digit_exec(d: u8) -> (c: u8)
    requires
        d < 16,
    ensures
        c == hex_digit(d as nat),
{
    if d < 10 {
        48 + d
    } else {
        87 + d
    }
}

/// Appends the escaped form of `b` to `out`.
fn push_escaped(out: &mut Vec<u8>, b: u8)
    ensures
        final(out)@ == old(out)@ + escape_byte(b),
{
    let ghost start = out@;
    if b == 9 {
        out.push(92);
        out.push(116);
    } else if b == 13 {
        out.push(92);
        out.push(114);
    } else if b == 10 {
        out.push(92);
        out.push(110);
    } else if b == 92 {
        out.push(92);
        out.push(92);
    } else if b == 39 {
        out.push(92);
        out.push(39);
    } else if b == 34 {
        out.push(92);
        out.push(34);
    } else if 32 <= b && b <= 126 {
        out.push(b);
    } else {
        out.push(92);
        out.push(120);
        out.push(hex_digit_exec(b / 16));
        out.push(hex_digit_exec(b % 16));
    }
    proof {
        assert(out@ =~= start + escape_byte(b));
    }
}

/// The bytes of `bytes` in escaped ASCII, as `<[u8]>::escape_ascii` shows them.
pub fn escape_ascii(bytes: &[u8]) -> (out: Vec<u8>)
    ensures
        out@ == escaped(bytes@),
{
    let mut out: Vec<u8> = Vec::new();
    let mut i: usize = 0;
    while i < bytes.len()
        invariant
            i <= bytes.len(),
            out@ == escaped(bytes@.take(i as int)),
        decreases bytes.len() - i,
    {
        proof {
            assert(bytes@.take(i + 1).drop_last() =~= bytes@.take(i as int));
            assert(bytes@.take(i + 1).last() == bytes@[i as int]);
        }
        push_escaped(&mut out, bytes[i]);
        i = i + 1;
    }
    proof {
        assert(bytes@.take(i as int) =~= bytes@);
    }
    out
}

/// What the echo server writes back for the bytes `bytes` it read.
pub fn echo_reply(bytes: &[u8]) -> (reply: Vec<u8>)
    ensures
        reply@ == echo_line(bytes@),
{
    let mut reply: Vec<u8> = Vec::new();
    reply.push(101);
    reply.push(99);
    reply.push(104);
    reply.push(111);
    reply.push(58);
    reply.push(32);
    reply.push(34);
    let mut body = escape_ascii(bytes);
    reply.append(&mut body);
    reply.push(34);
    reply.push(10);
    proof {
        assert(reply@ =~= echo_line(bytes@));
    }
    reply
}

/// Every byte of an escaped text is printable ASCII: no control byte and no
/// byte above 126 reaches the peer.
pub proof fn lemma_escaped_is_printable(s: Seq<u8>)
    ensures
        forall|i: int| 0 <= i < escaped(s).len() ==> 32 <= #[trigger] escaped(s)[i] <= 126,
    decreases s.len(),
{
    if s.len() > 0 {
        lemma_escaped_is_printable(s.drop_last());
        let a = escaped(s.drop_last());
        let b = escape_byte(s.last());
        let x = s.last();
        assert(b.len() == 1 ==> 32 <= b[0] <= 126);
        assert forall|i: int| 0 <= i < b.len() implies 32 <= #[trigger] b[i] <= 126 by {
            if b.len() == 4 {
                assert(x / 16 < 16 && x % 16 < 16);
            }
        }
        assert forall|i: int| 0 <= i < escaped(s).len() implies 32 <= #[trigger] escaped(s)[i]
            <= 126 by {
            if i < a.len() {
                assert(escaped(s)[i] == a[i]);
            } else {
                assert(escaped(s)[i] == b[i - a.len()]);
            }
        }
    }
}

/// The reply holds exactly one line: its only newline is the last byte, and
/// the echoed text sits between two quotes.
pub proof fn lemma_echo_line_is_one_line(s: Seq<u8>)
    ensures
        echo_line(s).last() == 10,
        forall|i: int| 0 <= i < echo_line(s).len() - 1 ==> #[trigger] echo_line(s)[i] != 10,
        echo_line(s)[6] == 34,
        echo_line(s)[echo_line(s).len() - 2] == 34,
{
    lemma_escaped_is_printable(s);
    let e = escaped(s);
    let line = echo_line(s);
    assert forall|i: int| 0 <= i < line.len() - 1 implies #[trigger] line[i] != 10 by {
        if 7 <= i < 7 + e.len() {
            assert(line[i] == e[i - 7]);
        }
    }
}

/// A byte that is printable ASCII and neither a backslash nor a quote.
pub open spec fn plain(b: u8) -> bool {
    32 <= b <= 126 && b != 92 && b != 34 && b != 39
}

/// The value of a lowercase hexadecimal digit character.
pub open spec fn hex_value(c: u8) -> int {
    if 48 <= c <= 57 {
        c - 48
    } else {
        c - 97 + 10
    }
}

/// Plain bytes are shown as themselves, and only they are shown as a single
/// byte; every other byte is shown behind a backslash.
pub proof fn lemma_escape_byte_plain_iff_unchanged(b: u8)
    ensures
        plain(b) ==> escape_byte(b) == seq![b],
        !plain(b) ==> escape_byte(b).len() >= 2 && escape_byte(b)[0] == 92,
{
}

/// Text made of plain bytes comes out unchanged.
pub proof fn lemma_escaped_plain_text_unchanged(s: Seq<u8>)
    requires
        forall|i: int| 0 <= i < s.len() ==> plain(#[trigger] s[i]),
    ensures
        escaped(s) == s,
    decreases s.len(),
{
    if s.len() > 0 {
        let rest = s.drop_last();
        assert forall|i: int| 0 <= i < rest.len() implies plain(#[trigger] rest[i]) by {
            assert(rest[i] == s[i]);
        }
        lemma_escaped_plain_text_unchanged(rest);
        assert(plain(s[s.len() - 1]));
        assert(rest + seq![s.last()] =~= s);
    }
}

/// A byte outside printable ASCII is shown as `\x` and two lowercase
/// hexadecimal digits that spell the byte's value.
pub proof fn lemma_escape_byte_hex_spells_value(b: u8)
    requires
        !(32 <= b <= 126),
        b != 9,
        b != 10,
        b != 13,
    ensures
        escape_byte(b).len() == 4,
        escape_byte(b)[0] == 92,
        escape_byte(b)[1] == 120,
        48 <= escape_byte(b)[2] <= 57 || 97 <= escape_byte(b)[2] <= 102,
        48 <= escape_byte(b)[3] <= 57 || 97 <= escape_byte(b)[3] <= 102,
        hex_value(escape_byte(b)[2]) * 16 + hex_value(escape_byte(b)[3]) == b,
{
}

} // verus!
