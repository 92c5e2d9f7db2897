//! Text forms of record ids and addresses: lower-case hexadecimal, the id in
//! the dashed groups of a UUID.
use vstd::prelude::*;
use vstd::string::*;
use vstd::utf8::*;

verus! {

/// The lower-case hexadecimal digit of `d`.
pub open spec fn hex_digit(d: int) -> char {
    if d < 10 {
        (d + 48) as char
    } else {
        (d + 87) as char
    }
}

/// Two lower-case hexadecimal digits for each byte of `bytes`.
pub open spec fn hex_text(bytes: Seq<u8>) -> Seq<char>
    decreases bytes.len(),
{
    if bytes.len() == 0 {
        seq![]
    } else {
        let b = bytes.last() as int;
        hex_text(bytes.drop_last()) + seq![hex_digit(b / 16), hex_digit(b % 16)]
    }
}

/// The text form of a record id: hexadecimal in groups of 8, 4, 4, 4 and 12
/// digits, joined by dashes.
pub open spec fn uuid_text(id: Seq<u8>) -> Seq<char> {
    hex_text(id.subrange(0, 4)) + seq!['-'] + hex_text(id.subrange(4, 6)) + seq!['-'] + hex_text(
        id.subrange(6, 8),
    ) + seq!['-'] + hex_text(id.subrange(8, 10)) + seq!['-'] + hex_text(id.subrange(10, 16))
}

fn hex_digit_str(d: u8) -> (r: &'static str)
    requires
        d < 16,
    ensures
        r@ == seq![hex_digit(d as int)],
{
    proof {
        reveal_strlit("0");
        reveal_strlit("1");
        reveal_strlit("2");
        reveal_strlit("3");
        reveal_strlit("4");
        reveal_strlit("5");
        reveal_strlit("6");
        reveal_strlit("7");
        reveal_strlit("8");
        reveal_strlit("9");
        reveal_strlit("a");
        reveal_strlit("b");
        reveal_strlit("c");
        reveal_strlit("d");
        reveal_strlit("e");
        reveal_strlit("f");
    }
    match d {
        0 => "0",
        1 => "1",
        2 => "2",
        3 => "3",
        4 => "4",
        5 => "5",
        6 => "6",
        7 => "7",
        8 => "8",
        9 => "9",
        10 => "a",
        11 => "b",
        12 => "c",
        13 => "d",
        14 => "e",
        _ => "f",
    }
}

fn append_hex(out: &mut String, id: &[u8], from: usize, to: usize)
    requires
        from <= to <= id@.len(),
    ensures
        final(out)@ == old(out)@ + hex_text(id@.subrange(from as int, to as int)),
{
    let ghost start = out@;
    let mut k: usize = from;
    while k < to
        invariant
            from <= k <= to <= id@.len(),
            out@ == start + hex_text(id@.subrange(from as int, k as int)),
        decreases to - k,
    {
        let b = id[k];
        out.append(hex_digit_str(b / 16));
        out.append(hex_digit_str(b % 16));
        proof {
            let s = id@.subrange(from as int, k + 1);
            assert(s.drop_last() =~= id@.subrange(from as int, k as int));
            assert(s.last() == b);
        }
        k = k + 1;
    }
}

/// The text form of a record id (see `uuid_text`).
pub fn uuid_string(id: &[u8; 16]) -> (r: String)
    ensures
        r@ == uuid_text(id@),
{
    let mut out = String::new();
    proof {
        reveal_strlit("-");
    }
    append_hex(&mut out, id.as_slice(), 0, 4);
    out.append("-");
    append_hex(&mut out, id.as_slice(), 4, 6);
    out.append("-");
    append_hex(&mut out, id.as_slice(), 6, 8);
    out.append("-");
    append_hex(&mut out, id.as_slice(), 8, 10);
    out.append("-");
    append_hex(&mut out, id.as_slice(), 10, 16);
    out
}

/// The text form of an address: forty lower-case hexadecimal digits.
pub fn address_string(address: &[u8; 20]) -> (r: String)
    ensures
        r@ == hex_text(address@),
{
    let mut out = String::new();
    append_hex(&mut out, address.as_slice(), 0, 20);
    assert(address@.subrange(0, 20) =~= address@);
    out
}

/// The value of the hexadecimal digit whose code is `b`, in either case.
pub open spec fn hex_value(b: u8) -> Option<int> {
    if 0x30 <= b <= 0x39 {
        Some(b - 0x30)
    } else if 0x61 <= b <= 0x66 {
        Some(b - 0x57)
    } else if 0x41 <= b <= 0x46 {
        Some(b - 0x37)
    } else {
        None
    }
}

/// The byte written by the two digits of `t` at `p` and `p + 1`.
pub open spec fn pair_value(t: Seq<u8>, p: int) -> Option<int> {
    match (hex_value(t[p]), hex_value(t[p + 1])) {
        (Some(h), Some(l)) => Some(16 * h + l),
        _ => None,
    }
}

/// Where the digits of byte `k` of an id start in its dashed text form.
pub open spec fn uuid_digit_pos(k: int) -> int {
    2 * k + (if k >= 4 {
        1int
    } else {
        0
    }) + (if k >= 6 {
        1int
    } else {
        0
    }) + (if k >= 8 {
        1int
    } else {
        0
    }) + (if k >= 10 {
        1int
    } else {
        0
    })
}

/// `t` is an id in text form: 36 characters, dashes after the groups of
/// 8, 4, 4 and 4 digits, hexadecimal digits elsewhere.
pub open spec fn uuid_well_formed(t: Seq<u8>) -> bool {
    &&& t.len() == 36
    &&& t[8] == 0x2du8 && t[13] == 0x2du8 && t[18] == 0x2du8 && t[23] == 0x2du8
    &&& forall|k: int| 0 <= k < 16 ==> (#[trigger] pair_value(t, uuid_digit_pos(k))) is Some
}

/// `t` is an address in text form: forty hexadecimal digits.
pub open spec fn address_well_formed(t: Seq<u8>) -> bool {
    &&& t.len() == 40
    &&& forall|k: int| 0 <= k < 20 ==> (#[trigger] pair_value(t, 2 * k)) is Some
}

fn hex_value_exec(b: u8) -> (r: Option<u8>)
    ensures
        match hex_value(b) {
            Some(v) => r == Some(v as u8) && 0 <= v < 16,
            None => r is None,
        },
{
    if 0x30 <= b && b <= 0x39 {
        Some(b - 0x30)
    } else if 0x61 <= b && b <= 0x66 {
        Some(b - 0x57)
    } else if 0x41 <= b && b <= 0x46 {
        Some(b - 0x37)
    } else {
        None
    }
}

fn pair_value_exec(t: &[u8], p: usize) -> (r: Option<u8>)
    requires
        p + 1 < t@.len(),
    ensures
        match pair_value(t@, p as int) {
            Some(v) => r == Some(v as u8) && 0 <= v < 256,
            None => r is None,
        },
{
    match (hex_value_exec(t[p]), hex_value_exec(t[p + 1])) {
        (Some(h), Some(l)) => Some(h * 16 + l),
        _ => None,
    }
}

/// Reads an id from its dashed text form, digits in either case.
pub fn parse_uuid(s: &str) -> (r: Option<[u8; 16]>)
    ensures
        r is Some <==> uuid_well_formed(s.spec_bytes()),
        r matches Some(id) ==> forall|k: int|
            0 <= k < 16 ==> #[trigger] pair_value(s.spec_bytes(), uuid_digit_pos(k)) == Some(
                id@[k] as int,
            ),
{
    let t = s.as_bytes();
    if t.len() != 36 || t[8] != 0x2d || t[13] != 0x2d || t[18] != 0x2d || t[23] != 0x2d {
        return None;
    }
    let mut id: [u8; 16] = [0u8; 16];
    let mut k: usize = 0;
    while k < 16
        invariant
            t@ == s.spec_bytes(),
            t@.len() == 36,
            0 <= k <= 16,
            forall|j: int| 0 <= j < k ==> #[trigger] pair_value(t@, uuid_digit_pos(j)) == Some(id@[j] as int),
        decreases 16 - k,
    {
        let p: usize = 2 * k + (if k >= 4 { 1 } else { 0 }) + (if k >= 6 { 1 } else { 0 }) + (if k >= 8 { 1 } else { 0 }) + (if k >= 10 { 1 } else { 0 });
        assert(p as int == uuid_digit_pos(k as int));
        match pair_value_exec(t, p) {
            Some(v) => {
                id[k] = v;
            },
            None => {
                return None;
            },
        }
        k = k + 1;
    }
    Some(id)
}

/// Reads an address from its forty hexadecimal digits, in either case.
pub fn parse_address(s: &str) -> (r: Option<[u8; 20]>)
    ensures
        r is Some <==> address_well_formed(s.spec_bytes()),
        r matches Some(a) ==> forall|k: int|
            0 <= k < 20 ==> #[trigger] pair_value(s.spec_bytes(), 2 * k) == Some(a@[k] as int),
{
    let t = s.as_bytes();
    if t.len() != 40 {
        return None;
    }
    let mut a: [u8; 20] = [0u8; 20];
    let mut k: usize = 0;
    while k < 20
        invariant
            t@ == s.spec_bytes(),
            t@.len() == 40,
            0 <= k <= 20,
            forall|j: int| 0 <= j < k ==> #[trigger] pair_value(t@, 2 * j) == Some(a@[j] as int),
        decreases 20 - k,
    {
        match pair_value_exec(t, 2 * k) {
            Some(v) => {
                a[k] = v;
            },
            None => {
                return None;
            },
        }
        k = k + 1;
    }
    Some(a)
}

/// Digit `2i` of `hex_text(b)` is the high digit of byte `i`, digit `2i + 1`
/// its low digit.
pub proof fn lemma_hex_text_digits(b: Seq<u8>)
    ensures
        hex_text(b).len() == 2 * b.len(),
        forall|i: int|
            0 <= i < b.len() ==> hex_text(b)[2 * i] == hex_digit(#[trigger] b[i] as int / 16) && hex_text(
                b,
            )[2 * i + 1] == hex_digit(b[i] as int % 16),
    decreases b.len(),
{
    if b.len() > 0 {
        let init = b.drop_last();
        lemma_hex_text_digits(init);
        assert forall|i: int| 0 <= i < b.len() implies hex_text(b)[2 * i] == hex_digit(
            #[trigger] b[i] as int / 16,
        ) && hex_text(b)[2 * i + 1] == hex_digit(b[i] as int % 16) by {
            if i < b.len() - 1 {
                assert(init[i] == b[i]);
            }
        }
    }
}

proof fn lemma_hex_digit_injective(d1: int, d2: int)
    requires
        0 <= d1 < 16,
        0 <= d2 < 16,
        hex_digit(d1) == hex_digit(d2),
    ensures
        d1 == d2,
{
    let c1 = if d1 < 10 { d1 + 48 } else { d1 + 87 };
    let c2 = if d2 < 10 { d2 + 48 } else { d2 + 87 };
    assert(c1 as char == c2 as char);
    assert(c1 == (c1 as char) as int);
    assert(c2 == (c2 as char) as int);
}

/// Where the two digits of each byte of an id stand in its text form.
pub proof fn lemma_uuid_text_digits(a: Seq<u8>)
    requires
        a.len() == 16,
    ensures
        uuid_text(a).len() == 36,
        forall|k: int|
            0 <= k < 16 ==> uuid_text(a)[uuid_digit_pos(k)] == hex_digit(#[trigger] a[k] as int / 16)
                && uuid_text(a)[uuid_digit_pos(k) + 1] == hex_digit(a[k] as int % 16),
{
    let g0 = a.subrange(0, 4);
    let g1 = a.subrange(4, 6);
    let g2 = a.subrange(6, 8);
    let g3 = a.subrange(8, 10);
    let g4 = a.subrange(10, 16);
    lemma_hex_text_digits(g0);
    lemma_hex_text_digits(g1);
    lemma_hex_text_digits(g2);
    lemma_hex_text_digits(g3);
    lemma_hex_text_digits(g4);
    let d = seq!['-'];
    let t = uuid_text(a);
    assert(t == hex_text(g0) + d + hex_text(g1) + d + hex_text(g2) + d + hex_text(g3) + d
        + hex_text(g4));
    assert forall|k: int| 0 <= k < 16 implies t[uuid_digit_pos(k)] == hex_digit(
        #[trigger] a[k] as int / 16,
    ) && t[uuid_digit_pos(k) + 1] == hex_digit(a[k] as int % 16) by {
        if k < 4 {
            assert(g0[k] == a[k]);
        } else if k < 6 {
            assert(g1[k - 4] == a[k]);
        } else if k < 8 {
            assert(g2[k - 6] == a[k]);
        } else if k < 10 {
            assert(g3[k - 8] == a[k]);
        } else {
            assert(g4[k - 10] == a[k]);
        }
    }
}

/// Two ids with the same text form are the same id.
pub proof fn lemma_uuid_text_injective(a: Seq<u8>, b: Seq<u8>)
    requires
        a.len() == 16,
        b.len() == 16,
        uuid_text(a) == uuid_text(b),
    ensures
        a == b,
{
    lemma_uuid_text_digits(a);
    lemma_uuid_text_digits(b);
    assert forall|k: int| 0 <= k < 16 implies #[trigger] a[k] == b[k] by {
        assert(uuid_text(a)[uuid_digit_pos(k)] == uuid_text(b)[uuid_digit_pos(k)]);
        assert(uuid_text(a)[uuid_digit_pos(k) + 1] == uuid_text(b)[uuid_digit_pos(k) + 1]);
        lemma_hex_digit_injective(a[k] as int / 16, b[k] as int / 16);
        lemma_hex_digit_injective(a[k] as int % 16, b[k] as int % 16);
    }
    assert(a =~= b);
}

proof fn lemma_hex_text_ascii(b: Seq<u8>)
    ensures
        is_ascii_chars(hex_text(b)),
    decreases b.len(),
{
    if b.len() > 0 {
        let init = b.drop_last();
        lemma_hex_text_ascii(init);
        let x = b.last() as int;
        lemma_hex_digit_byte(x / 16);
        lemma_hex_digit_byte(x % 16);
        let h = hex_text(init);
        let t = hex_text(b);
        assert(t == h + seq![hex_digit(x / 16), hex_digit(x % 16)]);
        assert forall|i: int| 0 <= i < t.len() implies '\0' <= #[trigger] t[i] <= '\u{7f}' by {
            if i < h.len() {
                assert(t[i] == h[i]);
            }
        }
    }
}

proof fn lemma_hex_digit_byte(d: int)
    requires
        0 <= d < 16,
    ensures
        '\0' <= hex_digit(d) <= '\u{7f}',
        hex_value(hex_digit(d) as u8) == Some(d),
{
}

/// The text of an id, as bytes, is well formed and reads back as that id:
/// `parse_uuid` undoes `uuid_string`.
pub proof fn lemma_uuid_text_parses_back(id: Seq<u8>, s: &str)
    requires
        id.len() == 16,
        s@ == uuid_text(id),
    ensures
        uuid_well_formed(s.spec_bytes()),
        forall|k: int|
            0 <= k < 16 ==> #[trigger] pair_value(s.spec_bytes(), uuid_digit_pos(k)) == Some(
                id[k] as int,
            ),
{
    let g0 = id.subrange(0, 4);
    let g1 = id.subrange(4, 6);
    let g2 = id.subrange(6, 8);
    let g3 = id.subrange(8, 10);
    let g4 = id.subrange(10, 16);
    lemma_hex_text_digits(g0);
    lemma_hex_text_digits(g1);
    lemma_hex_text_digits(g2);
    lemma_hex_text_digits(g3);
    lemma_hex_text_digits(g4);
    lemma_hex_text_ascii(g0);
    lemma_hex_text_ascii(g1);
    lemma_hex_text_ascii(g2);
    lemma_hex_text_ascii(g3);
    lemma_hex_text_ascii(g4);
    let d = seq!['-'];
    let c = uuid_text(id);
    let h0 = hex_text(g0);
    let h1 = hex_text(g1);
    let h2 = hex_text(g2);
    let h3 = hex_text(g3);
    let h4 = hex_text(g4);
    assert(c == h0 + d + h1 + d + h2 + d + h3 + d + h4);
    assert forall|i: int| 0 <= i < c.len() implies '\0' <= #[trigger] c[i] <= '\u{7f}' by {
        if i < 8 {
            assert(c[i] == h0[i]);
        } else if 9 <= i < 13 {
            assert(c[i] == h1[i - 9]);
        } else if 14 <= i < 18 {
            assert(c[i] == h2[i - 14]);
        } else if 19 <= i < 23 {
            assert(c[i] == h3[i - 19]);
        } else if 24 <= i {
            assert(c[i] == h4[i - 24]);
        }
    }
    assert(is_ascii_chars(c));
    is_ascii_chars_encode_utf8(c);
    let t = s.spec_bytes();
    assert(t == encode_utf8(c));
    lemma_uuid_text_digits(id);
    assert(t[8] == c[8] as u8);
    assert(t[13] == c[13] as u8);
    assert(t[18] == c[18] as u8);
    assert(t[23] == c[23] as u8);
    assert forall|k: int| 0 <= k < 16 implies #[trigger] pair_value(t, uuid_digit_pos(k)) == Some(
        id[k] as int,
    ) by {
        let p = uuid_digit_pos(k);
        assert(t[p] == c[p] as u8);
        assert(t[p + 1] == c[p + 1] as u8);
        lemma_hex_digit_byte(id[k] as int / 16);
        lemma_hex_digit_byte(id[k] as int % 16);
    }
}

/// The text of an address, as bytes, is well formed and reads back as that
/// address: `parse_address` undoes `address_string`.
pub proof fn lemma_address_text_parses_back(address: Seq<u8>, s: &str)
    requires
        address.len() == 20,
        s@ == hex_text(address),
    ensures
        address_well_formed(s.spec_bytes()),
        forall|k: int|
            0 <= k < 20 ==> #[trigger] pair_value(s.spec_bytes(), 2 * k) == Some(address[k] as int),
{
    let c = hex_text(address);
    lemma_hex_text_digits(address);
    lemma_hex_text_ascii(address);
    is_ascii_chars_encode_utf8(c);
    let t = s.spec_bytes();
    assert(t == encode_utf8(c));
    assert forall|k: int| 0 <= k < 20 implies #[trigger] pair_value(t, 2 * k) == Some(
        address[k] as int,
    ) by {
        assert(t[2 * k] == c[2 * k] as u8);
        assert(t[2 * k + 1] == c[2 * k + 1] as u8);
        lemma_hex_digit_byte(address[k] as int / 16);
        lemma_hex_digit_byte(address[k] as int % 16);
    }
}

} // verus!
