//! Identifiers and small value types shared by every part of the multiplexer.

use vstd::prelude::*;

pub mod input;
pub mod screen;

verus! {

/// The version and variant bits of a random (version 4) UUID.
pub open spec fn random_uuid(bits: u128) -> bool {
    bits & 0xf000_c000_0000_0000_0000 == 0x4000_8000_0000_0000_0000
}

/// Calls `uuid::Uuid::new_v4`, which draws 122 random bits from the operating
/// system and sets the version and variant bits. Nothing is claimed of the
/// random bits, not even that two calls differ.
#[verifier::external_body]
fn random_bits() -> (bits: u128)
    ensures
        random_uuid(bits),
{
    uuid::Uuid::new_v4().as_u128()
}

/// A hexadecimal digit, in lower case.
pub open spec fn hex_digit(digit: int) -> char {
    if digit < 10 {
        ('0' as int + digit) as char
    } else {
        ('a' as int + digit - 10) as char
    }
}

/// The last hexadecimal digits of a number.
pub open spec fn hex(n: nat, width: nat) -> Seq<char>
    decreases width,
{
    if width == 0 {
        Seq::empty()
    } else {
        hex(n / 16, (width - 1) as nat).push(hex_digit((n % 16) as int))
    }
}

/// The text of a UUID: its hexadecimal digits in five groups.
pub open spec fn hyphenated(bits: u128) -> Seq<char> {
    hex((bits / 0x1_0000_0000_0000_0000_0000_0000) as nat, 8) + seq!['-'] + hex(
        (bits / 0x1_0000_0000_0000_0000_0000) as nat,
        4,
    ) + seq!['-'] + hex((bits / 0x1_0000_0000_0000_0000) as nat, 4) + seq!['-'] + hex(
        (bits / 0x1_0000_0000_0000) as nat,
        4,
    ) + seq!['-'] + hex(bits as nat, 12)
}

/// Calls `uuid::Uuid::to_string`, which writes the 128 bits as hexadecimal digits
/// in lower case, the most significant first, with hyphens behind the eighth,
/// twelfth, sixteenth and twentieth.
#[verifier::external_body]
pub(crate) fn uuid_text(bits: u128) -> (r: String)
    ensures
        r@ == hyphenated(bits),
{
    uuid::Uuid::from_u128(bits).to_string()
}

/// A value that its bits identify.
pub trait Identifier: Copy {
    /// The bits of this identifier.
    spec fn bits(self) -> u128;

    /// Identifiers with the same bits are the same.
    proof fn lemma_bits_identify(self, other: Self)
        ensures
            self.bits() == other.bits() ==> self == other,
    ;

    /// The bits of this identifier.
    fn raw(self) -> (r: u128)
        ensures
            r == self.bits(),
    ;
}

/// A list without the occurrences of an identifier.
pub open spec fn without<T>(list: Seq<T>, id: T) -> Seq<T> {
    list.filter(|x: T| x != id)
}

/// Copies a list without the occurrences of an identifier.
pub fn without_id<T: Identifier>(list: &Vec<T>, id: T) -> (r: Vec<T>)
    ensures
        r@ == without(list@, id),
{
    let mut out: Vec<T> = Vec::new();
    let mut i: usize = 0;
    assert(without(list@.take(0), id) =~= Seq::<T>::empty()) by {
        reveal(Seq::filter);
    }
    while i < list.len()
        invariant
            i <= list.len(),
            out@ == without(list@.take(i as int), id),
        decreases list.len() - i,
    {
        proof {
            reveal(Seq::filter);
            assert(list@.take(i as int + 1).drop_last() =~= list@.take(i as int));
            list@[i as int].lemma_bits_identify(id);
        }
        if list[i].raw() != id.raw() {
            out.push(list[i]);
        }
        i += 1;
    }
    assert(list@.take(list@.len() as int) =~= list@);
    out
}

/// Whether a list holds an identifier.
pub fn contains_id<T: Identifier>(list: &Vec<T>, id: T) -> (r: bool)
    ensures
        r == list@.contains(id),
{
    let mut i: usize = 0;
    while i < list.len()
        invariant
            i <= list.len(),
            forall|j: int| 0 <= j < i ==> list@[j] != id,
        decreases list.len() - i,
    {
        if list[i].raw() == id.raw() {
            proof {
                list@[i as int].lemma_bits_identify(id);
            }
            assert(list@[i as int] == id);
            return true;
        }
        i += 1;
    }
    false
}

/// Whether no identifier occurs twice in a list.
pub fn unique<T: Identifier>(values: &Vec<T>) -> (r: bool)
    ensures
        r == values@.no_duplicates(),
{
    let mut i: usize = 0;
    while i < values.len()
        invariant
            i <= values.len(),
            forall|j: int, k: int| 0 <= j < i && 0 <= k < i && j != k ==> values@[j] != values@[k],
        decreases values.len() - i,
    {
        let mut j: usize = 0;
        while j < i
            invariant
                j <= i < values.len(),
                forall|k: int| 0 <= k < j ==> values@[k] != values@[i as int],
            decreases i - j,
        {
            if values[j].raw() == values[i].raw() {
                proof {
                    values@[j as int].lemma_bits_identify(values@[i as int]);
                }
                return false;
            }
            j += 1;
        }
        i += 1;
    }
    true
}

/// What is left of a list without an identifier: the same members but for it,
/// no duplicates where there were none, and one fewer where it occurred once.
pub proof fn lemma_without<T>(list: Seq<T>, id: T)
    ensures
        forall|x: T| #[trigger] without(list, id).contains(x) <==> list.contains(x) && x != id,
        list.no_duplicates() ==> without(list, id).no_duplicates(),
        !list.contains(id) ==> without(list, id) == list,
        list.no_duplicates() && list.contains(id) ==> without(list, id).len() == list.len() - 1,
    decreases list.len(),
{
    reveal(Seq::filter);
    if list.len() > 0 {
        let rest = list.drop_last();
        lemma_without(rest, id);
        let kept = without(rest, id);
        let all = without(list, id);
        assert forall|x: T| #[trigger] all.contains(x) <==> list.contains(x) && x != id by {
            if all.contains(x) {
                let i = choose|i: int| 0 <= i < all.len() && all[i] == x;
                if i < kept.len() {
                    assert(kept.contains(x));
                    let j = choose|j: int| 0 <= j < rest.len() && rest[j] == x;
                    assert(list[j] == x);
                } else {
                    assert(list[list.len() - 1] == x);
                }
            }
            if list.contains(x) && x != id {
                let i = choose|i: int| 0 <= i < list.len() && list[i] == x;
                if i < rest.len() {
                    assert(rest[i] == x);
                    assert(rest.contains(x));
                    assert(kept.contains(x));
                    let j = choose|j: int| 0 <= j < kept.len() && kept[j] == x;
                    assert(all[j] == x);
                } else {
                    assert(all[all.len() - 1] == x);
                }
            }
        }
        if list.no_duplicates() {
            assert(rest.no_duplicates());
            assert(!rest.contains(list.last())) by {
                if rest.contains(list.last()) {
                    let j = choose|j: int| 0 <= j < rest.len() && rest[j] == list.last();
                    assert(list[j] == list[list.len() - 1]);
                }
            }
            assert(!kept.contains(list.last()));
            assert forall|i: int, j: int|
                0 <= i < all.len() && 0 <= j < all.len() && i != j implies all[i] != all[j] by {
                if i < kept.len() && j < kept.len() {
                } else if i < kept.len() {
                    assert(kept.contains(all[i]));
                } else {
                    assert(kept.contains(all[j]));
                }
            }
            if list.contains(id) {
                if list.last() != id {
                    let j = choose|j: int| 0 <= j < list.len() && list[j] == id;
                    assert(rest[j] == id);
                }
            }
        }
        if !list.contains(id) {
            assert(list[list.len() - 1] != id);
            assert(!rest.contains(id)) by {
                if rest.contains(id) {
                    let j = choose|j: int| 0 <= j < rest.len() && rest[j] == id;
                    assert(list[j] == id);
                }
            }
            assert(all =~= list);
        }
    }
}

/// Identifies a session.
#[derive(Clone, Copy, Debug, PartialEq, Eq, PartialOrd, Ord, Hash, Structural)]
pub struct SessionId(pub u128);

/// Identifies a workspace.
#[derive(Clone, Copy, Debug, PartialEq, Eq, PartialOrd, Ord, Hash, Structural)]
pub struct WorkspaceId(pub u128);

/// Identifies a tab.
#[derive(Clone, Copy, Debug, PartialEq, Eq, PartialOrd, Ord, Hash, Structural)]
pub struct TabId(pub u128);

/// Identifies a pane.
#[derive(Clone, Copy, Debug, PartialEq, Eq, PartialOrd, Ord, Hash, Structural)]
pub struct PaneId(pub u128);

/// Identifies a terminal.
#[derive(Clone, Copy, Debug, PartialEq, Eq, PartialOrd, Ord, Hash, Structural)]
pub struct TerminalId(pub u128);

/// Identifies a branch of a split layout.
#[derive(Clone, Copy, Debug, PartialEq, Eq, PartialOrd, Ord, Hash, Structural)]
pub struct SplitId(pub u128);

/// Identifies a connected client.
#[derive(Clone, Copy, Debug, PartialEq, Eq, PartialOrd, Ord, Hash, Structural)]
pub struct ClientId(pub u128);

impl Identifier for SessionId {
    open spec fn bits(self) -> u128 {
        self.0
    }

    proof fn lemma_bits_identify(self, other: Self) {
    }

    fn raw(self) -> u128 {
        self.0
    }
}

impl SessionId {
    /// A fresh random identifier.
    pub fn new() -> (r: Self)
        ensures
            random_uuid(r.0),
    {
        Self(random_bits())
    }
}

impl Identifier for WorkspaceId {
    open spec fn bits(self) -> u128 {
        self.0
    }

    proof fn lemma_bits_identify(self, other: Self) {
    }

    fn raw(self) -> u128 {
        self.0
    }
}

impl WorkspaceId {
    /// A fresh random identifier.
    pub fn new() -> (r: Self)
        ensures
            random_uuid(r.0),
    {
        Self(random_bits())
    }
}

impl Identifier for TabId {
    open spec fn bits(self) -> u128 {
        self.0
    }

    proof fn lemma_bits_identify(self, other: Self) {
    }

    fn raw(self) -> u128 {
        self.0
    }
}

impl TabId {
    /// A fresh random identifier.
    pub fn new() -> (r: Self)
        ensures
            random_uuid(r.0),
    {
        Self(random_bits())
    }
}

impl Identifier for PaneId {
    open spec fn bits(self) -> u128 {
        self.0
    }

    proof fn lemma_bits_identify(self, other: Self) {
    }

    fn raw(self) -> u128 {
        self.0
    }
}

impl PaneId {
    /// A fresh random identifier.
    pub fn new() -> (r: Self)
        ensures
            random_uuid(r.0),
    {
        Self(random_bits())
    }
}

impl Identifier for TerminalId {
    open spec fn bits(self) -> u128 {
        self.0
    }

    proof fn lemma_bits_identify(self, other: Self) {
    }

    fn raw(self) -> u128 {
        self.0
    }
}

impl TerminalId {
    /// A fresh random identifier.
    pub fn new() -> (r: Self)
        ensures
            random_uuid(r.0),
    {
        Self(random_bits())
    }
}

impl Identifier for SplitId {
    open spec fn bits(self) -> u128 {
        self.0
    }

    proof fn lemma_bits_identify(self, other: Self) {
    }

    fn raw(self) -> u128 {
        self.0
    }
}

impl SplitId {
    /// A fresh random identifier.
    pub fn new() -> (r: Self)
        ensures
            random_uuid(r.0),
    {
        Self(random_bits())
    }
}

impl Identifier for ClientId {
    open spec fn bits(self) -> u128 {
        self.0
    }

    proof fn lemma_bits_identify(self, other: Self) {
    }

    fn raw(self) -> u128 {
        self.0
    }
}

impl ClientId {
    /// A fresh random identifier.
    pub fn new() -> (r: Self)
        ensures
            random_uuid(r.0),
    {
        Self(random_bits())
    }
}

/// The size of a terminal grid in cells.
#[derive(Clone, Copy, Debug, PartialEq, Eq, Structural)]
pub struct TerminalSize {
    pub columns: u16,
    pub rows: u16,
}

/// The power of sixteen.
spec fn power_of_sixteen(exponent: nat) -> nat
    decreases exponent,
{
    if exponent == 0 {
        1
    } else {
        16 * power_of_sixteen((exponent - 1) as nat)
    }
}

proof fn lemma_hex_divides(n: nat, high: nat, low: nat)
    ensures
        power_of_sixteen(low) > 0,
        hex(n, high + low) == hex(n / power_of_sixteen(low), high) + hex(n, low),
    decreases low,
{
    if low == 0 {
        assert(hex(n, 0) =~= Seq::<char>::empty());
        assert(n / 1 == n);
        assert(hex(n, high) + hex(n, 0) =~= hex(n, high));
    } else {
        let less = (low - 1) as nat;
        lemma_hex_divides(n / 16, high, less);
        vstd::arithmetic::div_mod::lemma_div_denominator(
            n as int,
            16,
            power_of_sixteen(less) as int,
        );
        assert((high + low - 1) as nat == high + less);
        assert(hex(n, high + low) =~= hex(n / power_of_sixteen(low), high) + hex(n, low));
    }
}

proof fn lemma_hex_len(n: nat, width: nat)
    ensures
        hex(n, width).len() == width,
    decreases width,
{
    if width > 0 {
        lemma_hex_len(n / 16, (width - 1) as nat);
    }
}

proof fn lemma_hex_differs(one: nat, other: nat, width: nat)
    requires
        one < power_of_sixteen(width),
        other < power_of_sixteen(width),
        hex(one, width) == hex(other, width),
    ensures
        one == other,
    decreases width,
{
    if width > 0 {
        let less = (width - 1) as nat;
        lemma_hex_len(one / 16, less);
        lemma_hex_len(other / 16, less);
        assert(hex(one, width).last() == hex_digit((one % 16) as int));
        assert(hex(other, width).last() == hex_digit((other % 16) as int));
        assert(hex(one, width).drop_last() =~= hex(one / 16, less));
        assert(hex(other, width).drop_last() =~= hex(other / 16, less));
        lemma_hex_differs(one / 16, other / 16, less);
    }
}

/// The text of an identifier is its number in thirty-two hexadecimal digits, with a hyphen
/// behind the eighth, the twelfth, the sixteenth and the twentieth.
pub proof fn law_identifiers_are_written_in_groups(bits: u128)
    ensures
        ({
            let text = hyphenated(bits);
            &&& text.len() == 36
            &&& text[8] == '-' && text[13] == '-' && text[18] == '-' && text[23] == '-'
            &&& text.take(8) + text.subrange(9, 13) + text.subrange(14, 18) + text.subrange(19, 23)
                + text.skip(24) == hex(bits as nat, 32)
        }),
{
    let text = hyphenated(bits);
    let n = bits as nat;
    assert(power_of_sixteen(4) == 0x1_0000 && power_of_sixteen(12) == 0x1_0000_0000_0000) by {
        reveal_with_fuel(power_of_sixteen, 13);
    }
    let a = (bits / 0x1_0000_0000_0000_0000_0000_0000) as nat;
    let b = (bits / 0x1_0000_0000_0000_0000_0000) as nat;
    let c = (bits / 0x1_0000_0000_0000_0000) as nat;
    let d = (bits / 0x1_0000_0000_0000) as nat;
    lemma_hex_divides(n, 20, 12);
    lemma_hex_divides(d, 16, 4);
    lemma_hex_divides(c, 12, 4);
    lemma_hex_divides(b, 8, 4);
    assert(n / 0x1_0000_0000_0000 == d && d / 0x1_0000 == c && c / 0x1_0000 == b && b / 0x1_0000
        == a);
    lemma_hex_len(a, 8);
    lemma_hex_len(b, 4);
    lemma_hex_len(c, 4);
    lemma_hex_len(d, 4);
    lemma_hex_len(n, 12);
    assert(text.take(8) =~= hex(a, 8));
    assert(text.subrange(9, 13) =~= hex(b, 4));
    assert(text.subrange(14, 18) =~= hex(c, 4));
    assert(text.subrange(19, 23) =~= hex(d, 4));
    assert(text.skip(24) =~= hex(n, 12));
}

/// The texts of two identifiers differ where the identifiers do.
pub proof fn law_texts_tell_identifiers_apart(one: u128, other: u128)
    ensures
        hyphenated(one) == hyphenated(other) ==> one == other,
{
    if hyphenated(one) == hyphenated(other) {
        law_identifiers_are_written_in_groups(one);
        law_identifiers_are_written_in_groups(other);
        assert(power_of_sixteen(32) == 0x1_0000_0000_0000_0000_0000_0000_0000_0000) by {
            reveal_with_fuel(power_of_sixteen, 33);
        }
        lemma_hex_differs(one as nat, other as nat, 32);
    }
}

} // verus!
