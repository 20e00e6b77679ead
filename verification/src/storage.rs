//! Filesystem capacity checks made before bounded downloads.

use vstd::prelude::*;

use crate::seconds;
use crate::text;

verus! {

/// The free bytes that `blocks` blocks of `block_size` bytes hold, at most [`u64::MAX`].
pub open spec fn free_bytes(blocks: u64, block_size: u64) -> u64 {
    seconds::saturated((blocks * block_size) as nat)
}

/// A number of bytes in tenths of a MiB: taken as a double, then rounded, ties going to the even
/// tenth.
pub open spec fn mebibyte_tenths(bytes: u64) -> nat {
    let scaled = seconds::nearest(bytes as nat) * 10;
    let below = scaled / 0x10_0000;
    let rest = scaled % 0x10_0000;
    if rest > 0x8_0000 || (rest == 0x8_0000 && below % 2 == 1) {
        below + 1
    } else {
        below
    }
}

/// A number of bytes in MiB, with one decimal.
pub open spec fn mebibytes(bytes: u64) -> Seq<char> {
    text::decimal_text(mebibyte_tenths(bytes) / 10) + "."@ + text::decimal_text(
        mebibyte_tenths(bytes) % 10,
    )
}

fn mebibytes_text(bytes: u64) -> (result: String)
    ensures
        result@ == mebibytes(bytes),
{
    let scaled: u128 = seconds::nearest_whole(bytes) * 10;
    let below: u128 = scaled / 0x10_0000;
    let rest: u128 = scaled % 0x10_0000;
    let tenths: u64 = if rest > 0x8_0000 || (rest == 0x8_0000 && below % 2 == 1) {
        below as u64 + 1
    } else {
        below as u64
    };
    let mut shown = text::decimal(tenths / 10);
    shown.push_str(".");
    shown.push_str(text::decimal(tenths % 10).as_str());
    shown
}

/// The complaint about a place with too few free bytes.
pub open spec fn shortage(path: Seq<char>, available: u64, minimum_bytes: u64) -> Seq<char> {
    "espaco insuficiente em "@ + path + ": "@ + mebibytes(available) + " MiB livres, "@
        + mebibytes(minimum_bytes) + " MiB necessarios"@
}

/// Refuses a place with fewer than `minimum_bytes` free bytes. The filesystem there has `blocks`
/// free blocks of `block_size` bytes.
pub fn ensure_free_space(path: &str, blocks: u64, block_size: u64, minimum_bytes: u64) -> (result:
    Result<(), String>)
    ensures
        match result {
            Ok(()) => free_bytes(blocks, block_size) >= minimum_bytes,
            Err(message) => free_bytes(blocks, block_size) < minimum_bytes && message@ == shortage(
                path@,
                free_bytes(blocks, block_size),
                minimum_bytes,
            ),
        },
{
    proof {
        assert(0 <= blocks * block_size) by (nonlinear_arith);
        assert(blocks * block_size <= u64::MAX * u64::MAX) by (nonlinear_arith)
            requires
                blocks <= u64::MAX,
                block_size <= u64::MAX,
        ;
    }
    let product: u128 = blocks as u128 * block_size as u128;
    let available: u64 = if product > u64::MAX as u128 {
        u64::MAX
    } else {
        product as u64
    };
    if available < minimum_bytes {
        let mut message = "espaco insuficiente em ".to_owned();
        message.push_str(path);
        message.push_str(": ");
        message.push_str(mebibytes_text(available).as_str());
        message.push_str(" MiB livres, ");
        message.push_str(mebibytes_text(minimum_bytes).as_str());
        message.push_str(" MiB necessarios");
        return Err(message);
    }
    Ok(())
}

/// The free bytes are those of all free blocks.
pub proof fn lemma_free_bytes(blocks: u64, block_size: u64)
    ensures
        blocks * block_size <= u64::MAX ==> free_bytes(blocks, block_size) == blocks * block_size,
        blocks * block_size > u64::MAX ==> free_bytes(blocks, block_size) == u64::MAX,
{
    assert(blocks * block_size >= 0) by (nonlinear_arith);
}

/// A number of bytes is shown to the nearest tenth of a MiB.
pub proof fn lemma_nearest_tenth(bytes: u64)
    requires
        bytes < 0x20_0000_0000_0000,
    ensures
        2 * 0x10_0000 * mebibyte_tenths(bytes) <= 20 * bytes + 0x10_0000,
        20 * bytes <= 2 * 0x10_0000 * mebibyte_tenths(bytes) + 0x10_0000,
        mebibytes(bytes) == text::decimal_text(mebibyte_tenths(bytes) / 10) + "."@
            + text::decimal_text(mebibyte_tenths(bytes) % 10),
{
    seconds::lemma_nearest(bytes as nat);
    let scaled: int = bytes as int * 10;
    let (below, rest) = (scaled / 0x10_0000, scaled % 0x10_0000);
    assert(scaled == 0x10_0000 * below + rest && 0 <= rest < 0x10_0000);
    assert(mebibyte_tenths(bytes) == if rest > 0x8_0000 || (rest == 0x8_0000 && below % 2 == 1) {
        below + 1
    } else {
        below
    });
    let tenths: int = mebibyte_tenths(bytes) as int;
    assert(2097152 * tenths <= 2 * scaled + 1048576 && 2 * scaled <= 2097152 * tenths + 1048576) by {
        assert(tenths == below || tenths == below + 1);
        assert(tenths == below ==> rest <= 0x8_0000);
        assert(tenths == below + 1 ==> rest >= 0x8_0000);
    }
}

/// Who lacks space is told where, how much there is and how much is needed.
pub proof fn lemma_shortage_told(path: Seq<char>, available: u64, minimum_bytes: u64)
    ensures
        text::occurs_in(shortage(path, available, minimum_bytes), path),
        text::occurs_in(
            shortage(path, available, minimum_bytes),
            mebibytes(available) + " MiB livres"@,
        ),
        text::occurs_in(
            shortage(path, available, minimum_bytes),
            mebibytes(minimum_bytes) + " MiB necessarios"@,
        ),
{
    let (a, m) = (mebibytes(available), mebibytes(minimum_bytes));
    let one = "espaco insuficiente em "@ + path;
    let rest = " MiB livres, "@;
    lemma_first_of_four(one, path, ": "@, a, rest, m);
    lemma_within_words(one + ": "@, a, m);
    lemma_at_the_end(one + ": "@ + a + rest, m);
}

proof fn lemma_first_of_four(
    s: Seq<char>,
    path: Seq<char>,
    b: Seq<char>,
    c: Seq<char>,
    d: Seq<char>,
    e: Seq<char>,
)
    requires
        s == "espaco insuficiente em "@ + path,
    ensures
        text::occurs_in(s + b + c + d + e + " MiB necessarios"@, path),
{
    text::lemma_occurs_between("espaco insuficiente em "@, path, b);
    text::lemma_occurs_in_longer(s + b, path, c);
    text::lemma_occurs_in_longer(s + b + c, path, d);
    text::lemma_occurs_in_longer(s + b + c + d, path, e);
    text::lemma_occurs_in_longer(s + b + c + d + e, path, " MiB necessarios"@);
}

proof fn lemma_within_words(before: Seq<char>, a: Seq<char>, m: Seq<char>)
    ensures
        text::occurs_in(
            before + a + " MiB livres, "@ + m + " MiB necessarios"@,
            a + " MiB livres"@,
        ),
{
    let word = " MiB livres"@;
    assert(" MiB livres, "@ =~= word + ", "@) by {
        reveal_strlit(" MiB livres, ");
        reveal_strlit(" MiB livres");
        reveal_strlit(", ");
    }
    text::lemma_occurs_between(before, a + word, ", "@);
    assert(before + (a + word) + ", "@ =~= before + a + (word + ", "@));
    text::lemma_occurs_in_longer(before + a + " MiB livres, "@, a + word, m);
    text::lemma_occurs_in_longer(
        before + a + " MiB livres, "@ + m,
        a + word,
        " MiB necessarios"@,
    );
}

proof fn lemma_at_the_end(before: Seq<char>, m: Seq<char>)
    ensures
        text::occurs_in(before + m + " MiB necessarios"@, m + " MiB necessarios"@),
{
    let needed = " MiB necessarios"@;
    let (whole, part) = (before + m + needed, m + needed);
    let at = before.len() as int;
    assert(whole.subrange(at, at + part.len()) =~= part);
    assert(text::occurs_at(whole, part, at));
}

} // verus!
