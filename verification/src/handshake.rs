//! The texts of the handshake, as the bytes of a text frame.
//!
//! A client opens with `HELLO`. The server grants an address with
//! `HELLO <address>/<prefix> <gateway>`, both addresses in dotted decimal, and
//! the client acknowledges with `THANKS`.

use vstd::prelude::*;

verus! {

pub const SPACE: u8 = 32;

pub const DOT: u8 = 46;

pub const SLASH: u8 = 47;

/// The word `HELLO`.
pub open spec fn hello() -> Seq<u8> {
    seq![72u8, 69u8, 76u8, 76u8, 79u8]
}

/// The word `THANKS`.
pub open spec fn thanks() -> Seq<u8> {
    seq![84u8, 72u8, 65u8, 78u8, 75u8, 83u8]
}

/// Whether the text begins with the word `HELLO`.
pub open spec fn starts_with_hello(text: Seq<u8>) -> bool {
    text.len() >= 5 && text.subrange(0, 5) == hello()
}

/// The address made of four octets, the first most significant.
pub open spec fn from_octets(o0: u8, o1: u8, o2: u8, o3: u8) -> u32 {
    (o0 * 0x100_0000 + o1 * 0x1_0000 + o2 * 0x100 + o3) as u32
}

/// The `i`-th octet of an address, counted from the most significant.
pub open spec fn octet(a: u32, i: int) -> u8 {
    if i == 0 {
        (a / 0x100_0000) as u8
    } else if i == 1 {
        ((a / 0x1_0000) % 0x100) as u8
    } else if i == 2 {
        ((a / 0x100) % 0x100) as u8
    } else {
        (a % 0x100) as u8
    }
}

/// The character of a decimal digit.
pub open spec fn digit(d: u8) -> u8 {
    (48 + d) as u8
}

pub open spec fn is_digit(b: u8) -> bool {
    48 <= b <= 57
}

/// A number below 256 in decimal, without leading zeros.
pub open spec fn decimal(n: u8) -> Seq<u8> {
    if n < 10 {
        seq![digit(n)]
    } else if n < 100 {
        seq![digit(n / 10), digit(n % 10)]
    } else {
        seq![digit(n / 100), digit((n / 10) % 10), digit(n % 10)]
    }
}

/// The number that a text writes in decimal without leading zeros, where it
/// is below 256.
pub open spec fn parse_decimal(s: Seq<u8>) -> Option<u8> {
    if s.len() == 1 && is_digit(s[0]) {
        Some((s[0] - 48) as u8)
    } else if s.len() == 2 && is_digit(s[0]) && is_digit(s[1]) && s[0] != 48 {
        Some(((s[0] - 48) * 10 + (s[1] - 48)) as u8)
    } else if s.len() == 3 && is_digit(s[0]) && is_digit(s[1]) && is_digit(s[2]) && s[0] != 48
        && (s[0] - 48) * 100 + (s[1] - 48) * 10 + (s[2] - 48) <= 255 {
        Some(((s[0] - 48) * 100 + (s[1] - 48) * 10 + (s[2] - 48)) as u8)
    } else {
        None
    }
}

/// An address in dotted decimal.
pub open spec fn dotted(a: u32) -> Seq<u8> {
    decimal(octet(a, 0)) + seq![DOT] + decimal(octet(a, 1)) + seq![DOT] + decimal(octet(a, 2))
        + seq![DOT] + decimal(octet(a, 3))
}

/// The fields of a text between the occurrences of a separator. A text
/// without the separator is one field; two separators in a row enclose an
/// empty field.
pub open spec fn split(s: Seq<u8>, sep: u8) -> Seq<Seq<u8>>
    decreases s.len(),
{
    if s.len() == 0 {
        seq![Seq::<u8>::empty()]
    } else {
        let before = split(s.drop_last(), sep);
        if s.last() == sep {
            before.push(Seq::<u8>::empty())
        } else {
            before.drop_last().push(before.last().push(s.last()))
        }
    }
}

/// The fields joined again, with the separator between each two.
pub open spec fn join(fields: Seq<Seq<u8>>, sep: u8) -> Seq<u8>
    decreases fields.len(),
{
    if fields.len() == 0 {
        Seq::<u8>::empty()
    } else if fields.len() == 1 {
        fields[0]
    } else {
        join(fields.drop_last(), sep) + seq![sep] + fields.last()
    }
}

/// Whether a byte is ASCII whitespace: tab, line feed, form feed, carriage
/// return or space.
pub open spec fn is_space(b: u8) -> bool {
    b == 9 || b == 10 || b == 12 || b == 13 || b == 32
}

/// The tokens of a text: its maximal runs of bytes that are not ASCII
/// whitespace, in order. Whitespace at either end, or more than one
/// whitespace byte in a row, adds no token.
pub open spec fn tokens(s: Seq<u8>) -> Seq<Seq<u8>>
    decreases s.len(),
{
    if s.len() == 0 {
        Seq::<Seq<u8>>::empty()
    } else {
        let before = tokens(s.drop_last());
        if is_space(s.last()) {
            before
        } else if s.len() >= 2 && !is_space(s[s.len() - 2]) {
            before.drop_last().push(before.last().push(s.last()))
        } else {
            before.push(seq![s.last()])
        }
    }
}

/// The address that a text writes in dotted decimal.
pub open spec fn parse_dotted(s: Seq<u8>) -> Option<u32> {
    let fields = split(s, DOT);
    if fields.len() == 4 && parse_decimal(fields[0]) is Some && parse_decimal(fields[1]) is Some
        && parse_decimal(fields[2]) is Some && parse_decimal(fields[3]) is Some {
        Some(
            from_octets(
                parse_decimal(fields[0])->Some_0,
                parse_decimal(fields[1])->Some_0,
                parse_decimal(fields[2])->Some_0,
                parse_decimal(fields[3])->Some_0,
            ),
        )
    } else {
        None
    }
}

/// A block in CIDR notation.
pub open spec fn cidr_text(address: u32, prefix: u8) -> Seq<u8> {
    dotted(address) + seq![SLASH] + decimal(prefix)
}

/// The text by which a server grants `address` in a block of the given
/// prefix length and names its own address.
pub open spec fn hello_reply(address: u32, prefix: u8, gateway: u32) -> Seq<u8> {
    hello() + seq![SPACE] + cidr_text(address, prefix) + seq![SPACE] + dotted(gateway)
}

/// The contents of each field.
pub open spec fn field_views(fields: Seq<Vec<u8>>) -> Seq<Seq<u8>> {
    fields.map_values(|f: Vec<u8>| f@)
}

/// A text has at least one field.
pub proof fn lemma_split_len(s: Seq<u8>, sep: u8)
    ensures
        split(s, sep).len() >= 1,
        forall|i: int, j: int|
            0 <= i < split(s, sep).len() && 0 <= j < split(s, sep)[i].len() ==> split(s, sep)[i][j]
                != sep,
    decreases s.len(),
{
    if s.len() > 0 {
        lemma_split_len(s.drop_last(), sep);
    }
}

/// A text without the separator is its own single field.
pub proof fn lemma_split_single(s: Seq<u8>, sep: u8)
    requires
        forall|i: int| 0 <= i < s.len() ==> s[i] != sep,
    ensures
        split(s, sep) == seq![s],
    decreases s.len(),
{
    if s.len() == 0 {
        assert(s =~= Seq::<u8>::empty());
    } else {
        lemma_split_single(s.drop_last(), sep);
        let before = seq![s.drop_last()];
        assert(s.last() != sep);
        assert(before.last().push(s.last()) =~= s);
        assert(before.drop_last().push(s) =~= seq![s]);
    }
}

/// A separator and a field without separators, appended to a text, add that
/// field to the fields of the text.
pub proof fn lemma_split_append(a: Seq<u8>, b: Seq<u8>, sep: u8)
    requires
        forall|i: int| 0 <= i < b.len() ==> b[i] != sep,
    ensures
        split(a + seq![sep] + b, sep) == split(a, sep).push(b),
    decreases b.len(),
{
    let whole = a + seq![sep] + b;
    if b.len() == 0 {
        assert(whole.drop_last() =~= a);
        assert(b =~= Seq::<u8>::empty());
    } else {
        let shorter = b.drop_last();
        lemma_split_append(a, shorter, sep);
        assert(whole.drop_last() =~= a + seq![sep] + shorter);
        assert(whole.last() == b.last());
        assert(split(a, sep).push(shorter).drop_last() =~= split(a, sep));
        assert(shorter.push(b.last()) =~= b);
    }
}

/// Joining the fields of a text gives the text back.
pub proof fn lemma_join_split(s: Seq<u8>, sep: u8)
    ensures
        join(split(s, sep), sep) == s,
    decreases s.len(),
{
    lemma_split_len(s, sep);
    if s.len() == 0 {
    } else {
        let before = split(s.drop_last(), sep);
        lemma_split_len(s.drop_last(), sep);
        lemma_join_split(s.drop_last(), sep);
        if s.last() == sep {
            let fields = before.push(Seq::<u8>::empty());
            assert(fields.drop_last() =~= before);
            assert(join(fields, sep) == join(before, sep) + seq![sep] + Seq::<u8>::empty());
            assert(s.drop_last().push(s.last()) =~= s);
            assert(join(fields, sep) =~= s);
        } else {
            let fields = before.drop_last().push(before.last().push(s.last()));
            if before.len() == 1 {
                assert(join(before, sep) == before[0]);
                assert(fields[0] == s.drop_last().push(s.last()));
                assert(s.drop_last().push(s.last()) =~= s);
            } else {
                assert(fields.drop_last() =~= before.drop_last());
                assert(fields.last() == before.last().push(s.last()));
                assert(join(before, sep) == join(before.drop_last(), sep) + seq![sep]
                    + before.last());
                assert(join(fields, sep) == join(before.drop_last(), sep) + seq![sep]
                    + before.last().push(s.last()));
                assert(s.drop_last().push(s.last()) =~= s);
                assert(join(fields, sep) =~= s);
            }
        }
    }
}

/// Decimal notation holds digits only and reads back as the number written.
pub proof fn lemma_decimal(n: u8)
    ensures
        1 <= decimal(n).len() <= 3,
        forall|i: int| 0 <= i < decimal(n).len() ==> is_digit(#[trigger] decimal(n)[i]),
        parse_decimal(decimal(n)) == Some(n),
{
}

/// Only the decimal notation of a number reads as that number.
pub proof fn lemma_parse_decimal_canonical(s: Seq<u8>)
    ensures
        parse_decimal(s) matches Some(n) ==> s == decimal(n),
{
    if let Some(n) = parse_decimal(s) {
        assert(s =~= decimal(n));
    }
}

/// Octets and address determine each other.
pub proof fn lemma_octets(a: u32, o0: u8, o1: u8, o2: u8, o3: u8)
    ensures
        from_octets(octet(a, 0), octet(a, 1), octet(a, 2), octet(a, 3)) == a,
        octet(from_octets(o0, o1, o2, o3), 0) == o0,
        octet(from_octets(o0, o1, o2, o3), 1) == o1,
        octet(from_octets(o0, o1, o2, o3), 2) == o2,
        octet(from_octets(o0, o1, o2, o3), 3) == o3,
{
    assert(a == (a / 0x100_0000) * 0x100_0000 + ((a / 0x1_0000) % 0x100) * 0x1_0000 + ((a / 0x100)
        % 0x100) * 0x100 + a % 0x100 && a / 0x100_0000 < 0x100) by (bit_vector);
    let v = from_octets(o0, o1, o2, o3);
    assert(v == o0 * 0x100_0000 + o1 * 0x1_0000 + o2 * 0x100 + o3);
    assert(v / 0x100_0000 == o0 && (v / 0x1_0000) % 0x100 == o1 && (v / 0x100) % 0x100 == o2 && v
        % 0x100 == o3) by (bit_vector)
        requires
            v == o0 * 0x100_0000 + o1 * 0x1_0000 + o2 * 0x100 + o3,
    ;
}

/// The four fields of an address in dotted decimal.
pub proof fn lemma_dotted_fields(a: u32)
    ensures
        split(dotted(a), DOT) == seq![
            decimal(octet(a, 0)),
            decimal(octet(a, 1)),
            decimal(octet(a, 2)),
            decimal(octet(a, 3)),
        ],
        forall|i: int|
            0 <= i < dotted(a).len() ==> is_digit(#[trigger] dotted(a)[i]) || dotted(a)[i] == DOT,
{
    let d0 = decimal(octet(a, 0));
    let d1 = decimal(octet(a, 1));
    let d2 = decimal(octet(a, 2));
    let d3 = decimal(octet(a, 3));
    lemma_decimal(octet(a, 0));
    lemma_decimal(octet(a, 1));
    lemma_decimal(octet(a, 2));
    lemma_decimal(octet(a, 3));
    lemma_split_single(d0, DOT);
    lemma_split_append(d0, d1, DOT);
    lemma_split_append(d0 + seq![DOT] + d1, d2, DOT);
    lemma_split_append(d0 + seq![DOT] + d1 + seq![DOT] + d2, d3, DOT);
    assert(seq![d0].push(d1).push(d2).push(d3) =~= seq![d0, d1, d2, d3]);
}

/// Dotted decimal reads back as the address written.
pub proof fn lemma_dotted_round_trip(a: u32)
    ensures
        parse_dotted(dotted(a)) == Some(a),
{
    lemma_dotted_fields(a);
    lemma_decimal(octet(a, 0));
    lemma_decimal(octet(a, 1));
    lemma_decimal(octet(a, 2));
    lemma_decimal(octet(a, 3));
    lemma_octets(a, 0, 0, 0, 0);
}

/// Only the dotted decimal notation of an address reads as that address.
pub proof fn lemma_parse_dotted_canonical(s: Seq<u8>)
    ensures
        parse_dotted(s) matches Some(a) ==> s == dotted(a),
{
    if let Some(a) = parse_dotted(s) {
        let fields = split(s, DOT);
        lemma_join_split(s, DOT);
        lemma_parse_decimal_canonical(fields[0]);
        lemma_parse_decimal_canonical(fields[1]);
        lemma_parse_decimal_canonical(fields[2]);
        lemma_parse_decimal_canonical(fields[3]);
        let n0 = parse_decimal(fields[0])->Some_0;
        let n1 = parse_decimal(fields[1])->Some_0;
        let n2 = parse_decimal(fields[2])->Some_0;
        let n3 = parse_decimal(fields[3])->Some_0;
        lemma_octets(0, n0, n1, n2, n3);
        let f3 = fields.drop_last();
        let f2 = f3.drop_last();
        let f1 = f2.drop_last();
        assert(join(f1, DOT) == fields[0]);
        assert(join(f2, DOT) == join(f1, DOT) + seq![DOT] + fields[1]);
        assert(join(f3, DOT) == join(f2, DOT) + seq![DOT] + fields[2]);
        assert(join(fields, DOT) == join(f3, DOT) + seq![DOT] + fields[3]);
        assert(s =~= dotted(a));
    }
}

/// Every token holds at least one byte and no whitespace, and a text that
/// ends in a byte that is no whitespace ends in its last token.
pub proof fn lemma_tokens_are_runs(s: Seq<u8>)
    ensures
        forall|i: int|
            0 <= i < tokens(s).len() ==> (#[trigger] tokens(s)[i]).len() > 0 && forall|j: int|
                0 <= j < tokens(s)[i].len() ==> !is_space(#[trigger] tokens(s)[i][j]),
        s.len() > 0 && !is_space(s.last()) ==> tokens(s).len() > 0 && tokens(s).last().len() > 0
            && tokens(s).last().last() == s.last(),
        tokens(s).len() <= s.len(),
    decreases s.len(),
{
    if s.len() > 0 {
        lemma_tokens_are_runs(s.drop_last());
        let before = tokens(s.drop_last());
        if !is_space(s.last()) && s.len() >= 2 && !is_space(s[s.len() - 2]) {
            assert(s.drop_last().last() == s[s.len() - 2]);
            let grown = before.last().push(s.last());
            let all = before.drop_last().push(grown);
            assert forall|i: int| 0 <= i < all.len() implies (#[trigger] all[i]).len() > 0
                && forall|j: int| 0 <= j < all[i].len() ==> !is_space(#[trigger] all[i][j]) by {
                if i < all.len() - 1 {
                    assert(all[i] == before[i]);
                }
            }
        }
    }
}

/// Whitespace at the end of a text adds no token.
pub proof fn lemma_tokens_space(a: Seq<u8>, b: u8)
    requires
        is_space(b),
    ensures
        tokens(a.push(b)) == tokens(a),
{
    assert(a.push(b).drop_last() =~= a);
}

/// A run of bytes without whitespace, appended to a text that is empty or
/// ends in whitespace, is one further token.
pub proof fn lemma_tokens_append(a: Seq<u8>, b: Seq<u8>)
    requires
        b.len() > 0,
        forall|i: int| 0 <= i < b.len() ==> !is_space(b[i]),
        a.len() == 0 || is_space(a.last()),
    ensures
        tokens(a + b) == tokens(a).push(b),
    decreases b.len(),
{
    let whole = a + b;
    assert(whole.last() == b.last());
    if b.len() == 1 {
        assert(whole.drop_last() =~= a);
        assert(seq![whole.last()] =~= b);
        if whole.len() >= 2 {
            assert(whole[whole.len() - 2] == a.last());
        }
    } else {
        let shorter = b.drop_last();
        lemma_tokens_append(a, shorter);
        assert(whole.drop_last() =~= a + shorter);
        assert(whole[whole.len() - 2] == b[b.len() - 2]);
        assert(tokens(a).push(shorter).drop_last() =~= tokens(a));
        assert(shorter.push(b.last()) =~= b);
    }
}

/// Dotted decimal and CIDR notation hold no whitespace.
pub proof fn lemma_notation_has_no_space(address: u32, prefix: u8)
    ensures
        dotted(address).len() > 0,
        forall|i: int| 0 <= i < dotted(address).len() ==> !is_space(#[trigger] dotted(address)[i]),
        forall|i: int|
            0 <= i < cidr_text(address, prefix).len() ==> !is_space(
                #[trigger] cidr_text(address, prefix)[i],
            ),
{
    let cidr = cidr_text(address, prefix);
    lemma_dotted_fields(address);
    lemma_decimal(prefix);
    lemma_decimal(octet(address, 0));
    assert forall|i: int| 0 <= i < cidr.len() implies !is_space(#[trigger] cidr[i]) by {
        if i < dotted(address).len() {
            assert(cidr[i] == dotted(address)[i]);
        } else if i > dotted(address).len() {
            assert(cidr[i] == decimal(prefix)[i - dotted(address).len() - 1]);
        }
    }
}

/// What a client reads from the grant that a server wrote: three tokens, the
/// word `HELLO`, the block in CIDR notation, and the gateway, which reads back
/// as the address the server named.
pub proof fn lemma_hello_reply_tokens(address: u32, prefix: u8, gateway: u32)
    ensures
        starts_with_hello(hello_reply(address, prefix, gateway)),
        hello_reply(address, prefix, gateway) != thanks(),
        tokens(hello_reply(address, prefix, gateway)) == seq![
            hello(),
            cidr_text(address, prefix),
            dotted(gateway),
        ],
        parse_dotted(dotted(gateway)) == Some(gateway),
{
    let text = hello_reply(address, prefix, gateway);
    let cidr = cidr_text(address, prefix);
    let nothing = Seq::<u8>::empty();
    lemma_notation_has_no_space(address, prefix);
    lemma_notation_has_no_space(gateway, prefix);
    lemma_dotted_round_trip(gateway);
    assert(text.subrange(0, 5) =~= hello());
    assert(text[1] == 69u8 && thanks()[1] == 72u8);
    lemma_tokens_append(nothing, hello());
    assert(nothing + hello() =~= hello());
    assert(tokens(nothing) =~= Seq::<Seq<u8>>::empty());
    let one = hello() + seq![SPACE];
    lemma_tokens_space(hello(), SPACE);
    assert(hello().push(SPACE) =~= one);
    lemma_tokens_append(one, cidr);
    let two = one + cidr;
    let three = two + seq![SPACE];
    lemma_tokens_space(two, SPACE);
    assert(two.push(SPACE) =~= three);
    lemma_tokens_append(three, dotted(gateway));
    assert(three + dotted(gateway) =~= text);
    assert(Seq::<Seq<u8>>::empty().push(hello()).push(cidr).push(dotted(gateway)) =~= seq![
        hello(),
        cidr,
        dotted(gateway),
    ]);
}

/// The text `HELLO`, by which a client asks for an address.
pub fn hello_text() -> (r: Vec<u8>)
    ensures
        r@ == hello(),
{
    let r: Vec<u8> = vec![72u8, 69u8, 76u8, 76u8, 79u8];
    assert(r@ =~= hello());
    r
}

/// The text `THANKS`, by which a client acknowledges its address.
pub fn thanks_text() -> (r: Vec<u8>)
    ensures
        r@ == thanks(),
{
    let r: Vec<u8> = vec![84u8, 72u8, 65u8, 78u8, 75u8, 83u8];
    assert(r@ =~= thanks());
    r
}

/// Whether the text begins with the word `HELLO`.
pub fn is_hello(text: &[u8]) -> (r: bool)
    ensures
        r == starts_with_hello(text@),
{
    if text.len() < 5 {
        return false;
    }
    let r = text[0] == 72 && text[1] == 69 && text[2] == 76 && text[3] == 76 && text[4] == 79;
    proof {
        let head = text@.subrange(0, 5);
        assert(head[0] == text@[0] && head[1] == text@[1] && head[2] == text@[2] && head[3]
            == text@[3] && head[4] == text@[4]);
        if r {
            assert(head =~= hello());
        }
    }
    r
}

/// Whether the text is the word `THANKS`.
pub fn is_thanks(text: &[u8]) -> (r: bool)
    ensures
        r == (text@ == thanks()),
{
    if text.len() != 6 {
        return false;
    }
    let r = text[0] == 84 && text[1] == 72 && text[2] == 65 && text[3] == 78 && text[4] == 75
        && text[5] == 83;
    proof {
        if r {
            assert(text@ =~= thanks());
        }
    }
    r
}

/// The fields of a text between the occurrences of a separator.
pub fn split_text(text: &[u8], sep: u8) -> (fields: Vec<Vec<u8>>)
    ensures
        field_views(fields@) == split(text@, sep),
{
    let mut done: Vec<Vec<u8>> = Vec::new();
    let mut current: Vec<u8> = Vec::new();
    let mut i: usize = 0;
    assert(text@.take(0) =~= Seq::<u8>::empty());
    assert(field_views(done@).push(current@) =~= seq![Seq::<u8>::empty()]);
    while i < text.len()
        invariant
            i <= text.len(),
            split(text@.take(i as int), sep) == field_views(done@).push(current@),
        decreases text.len() - i,
    {
        let byte: u8 = text[i];
        let ghost before = field_views(done@).push(current@);
        proof {
            let upto = text@.take(i + 1);
            assert(upto.drop_last() =~= text@.take(i as int));
            assert(upto.last() == byte);
        }
        if byte == sep {
            done.push(current);
            current = Vec::new();
            proof {
                assert(field_views(done@) =~= before);
            }
        } else {
            current.push(byte);
            proof {
                assert(field_views(done@).push(current@) =~= before.drop_last().push(
                    before.last().push(byte),
                ));
            }
        }
        i = i + 1;
    }
    proof {
        assert(text@.take(i as int) =~= text@);
    }
    let ghost last = current@;
    done.push(current);
    proof {
        assert(field_views(done@) =~= field_views(done@.drop_last()).push(last));
    }
    done
}

/// Whether a byte is ASCII whitespace.
pub fn is_ascii_space(b: u8) -> (r: bool)
    ensures
        r == is_space(b),
{
    b == 9 || b == 10 || b == 12 || b == 13 || b == 32
}

/// The tokens of a text: its maximal runs of bytes that are not ASCII
/// whitespace.
pub fn split_tokens(text: &[u8]) -> (found: Vec<Vec<u8>>)
    ensures
        field_views(found@) == tokens(text@),
{
    let mut done: Vec<Vec<u8>> = Vec::new();
    let mut current: Vec<u8> = Vec::new();
    let mut inside: bool = false;
    let mut i: usize = 0;
    assert(text@.take(0) =~= Seq::<u8>::empty());
    assert(field_views(done@) =~= Seq::<Seq<u8>>::empty());
    while i < text.len()
        invariant
            i <= text.len(),
            inside <==> i > 0 && !is_space(text@[i - 1]),
            !inside ==> current@.len() == 0,
            tokens(text@.take(i as int)) == if inside {
                field_views(done@).push(current@)
            } else {
                field_views(done@)
            },
        decreases text.len() - i,
    {
        let byte: u8 = text[i];
        let ghost before = tokens(text@.take(i as int));
        let ghost finished = field_views(done@);
        proof {
            let upto = text@.take(i + 1);
            assert(upto.drop_last() =~= text@.take(i as int));
            assert(upto.last() == byte);
            if i > 0 {
                assert(upto[upto.len() - 2] == text@[i - 1]);
            }
        }
        if is_ascii_space(byte) {
            if inside {
                done.push(current);
                current = Vec::new();
                proof {
                    assert(field_views(done@) =~= before);
                }
            }
            inside = false;
        } else {
            current.push(byte);
            proof {
                if inside {
                    assert(before.drop_last() =~= finished);
                    assert(current@ =~= before.last().push(byte));
                } else {
                    assert(current@ =~= seq![byte]);
                }
            }
            inside = true;
        }
        i = i + 1;
    }
    proof {
        assert(text@.take(i as int) =~= text@);
    }
    if inside {
        let ghost last = current@;
        done.push(current);
        proof {
            assert(field_views(done@) =~= field_views(done@.drop_last()).push(last));
        }
    }
    done
}

/// Reads a number below 256 written in decimal without leading zeros.
pub fn read_decimal(field: &[u8]) -> (r: Option<u8>)
    ensures
        r == parse_decimal(field@),
{
    let n = field.len();
    if n == 0 || n > 3 {
        return None;
    }
    let mut i: usize = 0;
    while i < n
        invariant
            i <= n,
            n == field.len(),
            forall|j: int| 0 <= j < i ==> is_digit(#[trigger] field@[j]),
        decreases n - i,
    {
        if field[i] < 48 || field[i] > 57 {
            return None;
        }
        i = i + 1;
    }
    if n == 1 {
        Some(field[0] - 48)
    } else if field[0] == 48 {
        None
    } else if n == 2 {
        Some((field[0] - 48) * 10 + (field[1] - 48))
    } else {
        let value: u16 = ((field[0] - 48) as u16) * 100 + ((field[1] - 48) as u16) * 10 + ((field[2]
            - 48) as u16);
        if value <= 255 {
            Some(value as u8)
        } else {
            None
        }
    }
}

/// The address made of four octets, the first most significant.
pub fn address_from_octets(o0: u8, o1: u8, o2: u8, o3: u8) -> (a: u32)
    ensures
        a == from_octets(o0, o1, o2, o3),
{
    (o0 as u32) * 0x100_0000 + (o1 as u32) * 0x1_0000 + (o2 as u32) * 0x100 + (o3 as u32)
}

/// The four octets of an address, the most significant first.
pub fn octets_of(a: u32) -> (o: [u8; 4])
    ensures
        o@ == seq![octet(a, 0), octet(a, 1), octet(a, 2), octet(a, 3)],
{
    let o: [u8; 4] = [
        (a / 0x100_0000) as u8,
        ((a / 0x1_0000) % 0x100) as u8,
        ((a / 0x100) % 0x100) as u8,
        (a % 0x100) as u8,
    ];
    assert(o@ =~= seq![octet(a, 0), octet(a, 1), octet(a, 2), octet(a, 3)]);
    o
}

/// Reads an address written in dotted decimal.
pub fn read_address(text: &[u8]) -> (r: Option<u32>)
    ensures
        r == parse_dotted(text@),
        r matches Some(a) ==> text@ == dotted(a),
{
    proof {
        lemma_parse_dotted_canonical(text@);
    }
    let fields = split_text(text, DOT);
    if fields.len() != 4 {
        return None;
    }
    assert(field_views(fields@)[0] == fields@[0]@ && field_views(fields@)[1] == fields@[1]@
        && field_views(fields@)[2] == fields@[2]@ && field_views(fields@)[3] == fields@[3]@);
    let o0 = read_decimal(fields[0].as_slice());
    let o1 = read_decimal(fields[1].as_slice());
    let o2 = read_decimal(fields[2].as_slice());
    let o3 = read_decimal(fields[3].as_slice());
    match (o0, o1, o2, o3) {
        (Some(o0), Some(o1), Some(o2), Some(o3)) => Some(address_from_octets(o0, o1, o2, o3)),
        _ => None,
    }
}

/// Appends a number in decimal.
pub fn write_decimal(out: &mut Vec<u8>, n: u8)
    ensures
        final(out)@ == old(out)@ + decimal(n),
{
    if n >= 100 {
        out.push(48 + n / 100);
    }
    if n >= 10 {
        out.push(48 + (n / 10) % 10);
    }
    out.push(48 + n % 10);
    assert(out@ =~= old(out)@ + decimal(n));
}

/// Appends an address in dotted decimal.
pub fn write_address(out: &mut Vec<u8>, a: u32)
    ensures
        final(out)@ == old(out)@ + dotted(a),
{
    let o = octets_of(a);
    write_decimal(out, o[0]);
    out.push(DOT);
    write_decimal(out, o[1]);
    out.push(DOT);
    write_decimal(out, o[2]);
    out.push(DOT);
    write_decimal(out, o[3]);
    assert(out@ =~= old(out)@ + dotted(a));
}

/// The text by which a server grants `address` in a block of the given prefix
/// length and names its own address.
pub fn grant_text(address: u32, prefix: u8, gateway: u32) -> (r: Vec<u8>)
    ensures
        r@ == hello_reply(address, prefix, gateway),
{
    let mut r = hello_text();
    r.push(SPACE);
    write_address(&mut r, address);
    r.push(SLASH);
    write_decimal(&mut r, prefix);
    r.push(SPACE);
    write_address(&mut r, gateway);
    assert(r@ =~= hello_reply(address, prefix, gateway));
    r
}

} // verus!
