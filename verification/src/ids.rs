//! Identifiers of tasks, projects, tags and saved views: UUIDs held as 128-bit
//! values, written in the hyphenated lowercase form.
use vstd::prelude::*;

verus! {

/// The lowercase hexadecimal digit for `n` (0..=15).
pub open spec fn hex_digit(n: int) -> char {
    if n < 10 {
        (('0' as int) + n) as char
    } else {
        (('a' as int) + n - 10) as char
    }
}

/// The last `count` base-16 digits of `n`, most significant first.
pub open spec fn hex_digits(n: nat, count: nat) -> Seq<int>
    decreases count,
{
    if count == 0 {
        Seq::empty()
    } else {
        hex_digits(n / 16, (count - 1) as nat).push((n % 16) as int)
    }
}

/// The number that base-16 digits denote.
pub open spec fn hex_value(ds: Seq<int>) -> int
    decreases ds.len(),
{
    if ds.len() == 0 {
        0
    } else {
        hex_value(ds.drop_last()) * 16 + ds.last()
    }
}

/// `16^k`.
pub open spec fn pow16(k: nat) -> nat
    decreases k,
{
    if k == 0 {
        1
    } else {
        16 * pow16((k - 1) as nat)
    }
}

/// The `p`-th hexadecimal digit of `v`, counted from the most significant (0..=31).
pub open spec fn hex_digit_at(v: u128, p: int) -> int {
    hex_digits(v as nat, 32)[p]
}

/// Position among the 32 digits of the character at `i` of the hyphenated form.
pub open spec fn digit_position(i: int) -> int {
    if i < 8 {
        i
    } else if i < 13 {
        i - 1
    } else if i < 18 {
        i - 2
    } else if i < 23 {
        i - 3
    } else {
        i - 4
    }
}

/// The hyphenated lowercase form of a UUID: `xxxxxxxx-xxxx-xxxx-xxxx-xxxxxxxxxxxx`.
pub open spec fn hyphenated(v: u128) -> Seq<char> {
    Seq::new(
        36,
        |i: int|
            if i == 8 || i == 13 || i == 18 || i == 23 {
                '-'
            } else {
                hex_digit(hex_digit_at(v, digit_position(i)))
            },
    )
}

proof fn lemma_hex_digits(n: nat, count: nat)
    requires
        n < pow16(count),
    ensures
        hex_digits(n, count).len() == count,
        forall|i: int| 0 <= i < count ==> 0 <= #[trigger] hex_digits(n, count)[i] < 16,
        hex_value(hex_digits(n, count)) == n,
    decreases count,
{
    if count > 0 {
        assert(n / 16 < pow16((count - 1) as nat));
        lemma_hex_digits(n / 16, (count - 1) as nat);
        let d = hex_digits(n, count);
        assert(d.drop_last() == hex_digits(n / 16, (count - 1) as nat));
    }
}

proof fn lemma_pow16_32()
    ensures
        pow16(32) == 0x1_0000_0000_0000_0000_0000_0000_0000_0000,
{
    reveal_with_fuel(pow16, 33);
}

/// Different UUIDs have different hyphenated forms.
pub proof fn lemma_hyphenated_injective(a: u128, b: u128)
    requires
        hyphenated(a) == hyphenated(b),
    ensures
        a == b,
{
    lemma_pow16_32();
    lemma_hex_digits(a as nat, 32);
    lemma_hex_digits(b as nat, 32);
    let da = hex_digits(a as nat, 32);
    let db = hex_digits(b as nat, 32);
    assert forall|p: int| 0 <= p < 32 implies da[p] == db[p] by {
        let i = if p < 8 {
            p
        } else if p < 12 {
            p + 1
        } else if p < 16 {
            p + 2
        } else if p < 20 {
            p + 3
        } else {
            p + 4
        };
        assert(digit_position(i) == p);
        assert(hyphenated(a)[i] == hex_digit(da[p]));
        assert(hyphenated(b)[i] == hex_digit(db[p]));
        assert(0 <= da[p] < 16);
        assert(0 <= db[p] < 16);
    }
    assert(da =~= db);
}

/// `uuid::Uuid::parse_str`: the UUID that a text denotes, if any.
pub uninterp spec fn parsed_uuid(s: Seq<char>) -> Option<u128>;

/// `uuid::Uuid::parse_str` read by `as_u128`. The hyphenated lowercase form of a
/// UUID is read back as that UUID.
#[verifier::external_body]
fn parse_uuid(s: &str) -> (r: Option<u128>)
    ensures
        r == parsed_uuid(s@),
        forall|v: u128| s@ == hyphenated(v) ==> r == Some(v),
{
    match uuid::Uuid::parse_str(s) {
        Ok(u) => Some(u.as_u128()),
        Err(_) => None,
    }
}

/// `uuid::Uuid`'s `Display`, which writes the hyphenated lowercase form.
#[verifier::external_body]
fn uuid_text(v: u128) -> (r: String)
    ensures
        r@ == hyphenated(v),
{
    uuid::Uuid::from_u128(v).to_string()
}

/// A random UUID as RFC 9562 lays it out: version 4 in bits 76 to 79, and the
/// variant bits 62 and 63 set to `10`.
pub open spec fn is_random_uuid(v: u128) -> bool {
    &&& (v as int / 0x1000_0000_0000_0000_0000int) % 16 == 4
    &&& (v as int / 0x4000_0000_0000_0000int) % 4 == 2
}

/// `uuid::Uuid::new_v4` read by `as_u128`: random bits with the version nibble set
/// to 4 and the variant bits to `10` (the masks in `new_v4`). Which random bits
/// come is left unsaid. The call panics only when the operating system's random
/// source fails, which no input can cause.
#[verifier::external_body]
fn random_uuid() -> (r: u128)
    ensures
        is_random_uuid(r),
{
    uuid::Uuid::new_v4().as_u128()
}

/// Identifier of a task.
#[derive(Clone, Copy, Debug, PartialEq, Eq, Hash, Structural)]
pub struct TaskId {
    pub value: u128,
}

/// Identifier of a project.
#[derive(Clone, Copy, Debug, PartialEq, Eq, Hash, Structural)]
pub struct ProjectId {
    pub value: u128,
}

/// Identifier of a tag.
#[derive(Clone, Copy, Debug, PartialEq, Eq, Hash, Structural)]
pub struct TagId {
    pub value: u128,
}

/// Identifier of a saved view.
#[derive(Clone, Copy, Debug, PartialEq, Eq, Hash, Structural)]
pub struct SavedViewId {
    pub value: u128,
}

impl TaskId {
    /// A fresh random identifier: a version-4 UUID.
    pub fn new() -> (r: TaskId)
        ensures
            is_random_uuid(r.value),
    {
        TaskId { value: random_uuid() }
    }

    /// The hyphenated lowercase text of the identifier.
    pub fn text(&self) -> (r: String)
        ensures
            r@ == hyphenated(self.value),
    {
        uuid_text(self.value)
    }
}

impl ProjectId {
    /// A fresh random identifier: a version-4 UUID.
    pub fn new() -> (r: ProjectId)
        ensures
            is_random_uuid(r.value),
    {
        ProjectId { value: random_uuid() }
    }
}

impl TagId {
    /// A fresh random identifier: a version-4 UUID.
    pub fn new() -> (r: TagId)
        ensures
            is_random_uuid(r.value),
    {
        TagId { value: random_uuid() }
    }
}

impl SavedViewId {
    /// A fresh random identifier: a version-4 UUID.
    pub fn new() -> (r: SavedViewId)
        ensures
            is_random_uuid(r.value),
    {
        SavedViewId { value: random_uuid() }
    }

    /// The hyphenated lowercase text of the identifier.
    pub fn text(&self) -> (r: String)
        ensures
            r@ == hyphenated(self.value),
    {
        uuid_text(self.value)
    }

    /// The identifier that `s` denotes, if any.
    pub fn parse(s: &str) -> (r: Option<SavedViewId>)
        ensures
            r matches Some(id) ==> parsed_uuid(s@) == Some(id.value),
            r is None ==> parsed_uuid(s@) is None,
            forall|v: u128| s@ == hyphenated(v) ==> r == Some(SavedViewId { value: v }),
    {
        match parse_uuid(s) {
            Some(v) => Some(SavedViewId { value: v }),
            None => None,
        }
    }
}

} // verus!
