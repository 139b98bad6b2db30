//! What the helpers on texts and bytes mean.
use vstd::prelude::*;
use vstd::utf8::encode_utf8;

use crate::load::wasm_platform;
use crate::pack_url::url_before;
use crate::text::{bytes_before, decimal, digit, has_part, is_first_nul, part_at};

verus! {

/// A part occurs in every text that has it between two other texts.
pub proof fn part_occurs_between(before: Seq<char>, part: Seq<char>, behind: Seq<char>)
    ensures
        has_part(before + part + behind, part),
{
    let whole = before + part + behind;
    let at = before.len() as int;
    assert(whole.subrange(at, at + part.len()) =~= part);
    assert(part_at(whole, part, at));
}

/// A text in which a part occurs has it between two other texts.
pub proof fn part_is_between(whole: Seq<char>, part: Seq<char>) -> (around: (Seq<char>, Seq<char>))
    requires
        has_part(whole, part),
    ensures
        whole == around.0 + part + around.1,
{
    let at = choose|at: int| part_at(whole, part, at);
    let before = whole.take(at);
    let behind = whole.skip(at + part.len());
    assert(whole =~= before + part + behind) by {
        assert forall|i: int| 0 <= i < whole.len() implies #[trigger] whole[i] == (before + part
            + behind)[i] by {
            if at <= i < at + part.len() {
                assert(whole.subrange(at, at + part.len())[i - at] == part[i - at]);
            }
        }
    }
    (before, behind)
}

/// A platform whose name has the letters `wasm` in it, one behind the other, is a
/// Wasm one, wherever they are.
pub proof fn wasm_letters_make_a_wasm_platform(before: Seq<char>, behind: Seq<char>)
    ensures
        wasm_platform(before + seq!['w', 'a', 's', 'm'] + behind),
{
    reveal_strlit("wasm");
    let part = seq!['w', 'a', 's', 'm'];
    assert("wasm"@ =~= part);
    part_occurs_between(before, part, behind);
}

/// A Wasm platform has these letters in its name.
pub proof fn wasm_platforms_have_the_letters(platform: Seq<char>) -> (around: (
    Seq<char>,
    Seq<char>,
))
    requires
        wasm_platform(platform),
    ensures
        platform == around.0 + seq!['w', 'a', 's', 'm'] + around.1,
{
    reveal_strlit("wasm");
    let part = seq!['w', 'a', 's', 'm'];
    assert("wasm"@ =~= part);
    part_is_between(platform, part)
}

/// Byte strings that begin alike are ordered by what follows: the shorter one comes
/// first where it ends there, and otherwise the smaller byte decides.
pub proof fn first_difference_decides(
    same: Seq<u8>,
    a: Seq<u8>,
    b: Seq<u8>,
)
    requires
        a.len() > 0 && b.len() > 0 ==> a[0] != b[0],
    ensures
        bytes_before(same + a, same + b) <==> (b.len() > 0 && (a.len() == 0 || a[0] < b[0])),
    decreases same.len(),
{
    if same.len() == 0 {
        assert(same + a =~= a);
        assert(same + b =~= b);
    } else {
        assert((same + a).drop_first() =~= same.drop_first() + a);
        assert((same + b).drop_first() =~= same.drop_first() + b);
        first_difference_decides(same.drop_first(), a, b);
    }
}

/// Two byte strings begin alike up to where they differ or one of them ends.
pub proof fn common_start(a: Seq<u8>, b: Seq<u8>) -> (same: Seq<u8>)
    ensures
        same.len() <= a.len(),
        same.len() <= b.len(),
        a == same + a.skip(same.len() as int),
        b == same + b.skip(same.len() as int),
        same.len() < a.len() && same.len() < b.len() ==> a[same.len() as int] != b[same.len() as int],
    decreases a.len(),
{
    if a.len() == 0 || b.len() == 0 || a[0] != b[0] {
        let same = Seq::<u8>::empty();
        assert(a =~= same + a.skip(0));
        assert(b =~= same + b.skip(0));
        same
    } else {
        let rest = common_start(a.drop_first(), b.drop_first());
        let same = seq![a[0]] + rest;
        let n = rest.len() as int;
        assert(a.drop_first().skip(n) =~= a.skip(n + 1));
        assert(b.drop_first().skip(n) =~= b.skip(n + 1));
        assert(a =~= seq![a[0]] + a.drop_first());
        assert(b =~= seq![b[0]] + b.drop_first());
        assert(a =~= same + a.skip(n + 1));
        assert(b =~= same + b.skip(n + 1));
        same
    }
}

/// URLs are ordered as the bytes of their texts are: the first byte that differs
/// decides, and a text that another one goes on from comes first.
pub proof fn urls_are_ordered_by_bytes(a: Seq<char>, b: Seq<char>) -> (same: nat)
    ensures
        ({
            let x = encode_utf8(a);
            let y = encode_utf8(b);
            &&& same <= x.len() && same <= y.len()
            &&& x.take(same as int) == y.take(same as int)
            &&& same < x.len() && same < y.len() ==> x[same as int] != y[same as int]
            &&& url_before(a, b) <==> (same < y.len() && (same == x.len() || x[same as int]
                < y[same as int]))
        }),
{
    let x = encode_utf8(a);
    let y = encode_utf8(b);
    let start = common_start(x, y);
    let n = start.len() as int;
    first_difference_decides(start, x.skip(n), y.skip(n));
    assert(x.take(n) =~= start);
    assert(y.take(n) =~= start);
    start.len()
}

/// The number that digits stand for.
pub open spec fn digits_value(digits: Seq<char>) -> int
    decreases digits.len(),
{
    if digits.len() == 0 {
        0
    } else {
        10 * digits_value(digits.drop_last()) + (digits.last() as int - '0' as int)
    }
}

/// A number in decimal digits is made of digits, stands for the number, and does not
/// begin with a zero unless it is one.
pub proof fn decimal_stands_for_the_number(n: nat)
    ensures
        digits_value(decimal(n)) == n,
        forall|i: int| 0 <= i < decimal(n).len() ==> '0' <= #[trigger] decimal(n)[i] <= '9',
        decimal(n).len() > 0,
        decimal(n)[0] == '0' ==> n == 0 && decimal(n).len() == 1,
    decreases n,
{
    if n < 10 {
        assert(decimal(n).drop_last() =~= Seq::empty());
        assert(decimal(n) =~= seq![digit(n)]);
        assert(digits_value(Seq::empty()) == 0);
    } else {
        decimal_stands_for_the_number(n / 10);
        assert(decimal(n).drop_last() =~= decimal(n / 10));
        assert(decimal(n).last() == digit(n % 10));
    }
}

/// The first zero byte is the zero byte behind which there is none before it.
pub proof fn first_nul_is_the_first(before: Seq<u8>, behind: Seq<u8>)
    requires
        !before.contains(0u8),
    ensures
        is_first_nul(before.push(0u8) + behind, before.len() as int),
        forall|at: int| #[trigger]
            is_first_nul(before.push(0u8) + behind, at) ==> at == before.len(),
{
    let all = before.push(0u8) + behind;
    assert forall|i: int| 0 <= i < before.len() implies all[i] != 0 by {
        assert(before.contains(before[i]));
    }
}

} // verus!
