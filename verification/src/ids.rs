//! Fresh identifiers, generator seeds drawn from them, and the clock.
use vstd::prelude::*;

verus! {

/// A lower-case hexadecimal digit.
pub open spec fn is_lower_hex(c: char) -> bool {
    ('0' <= c && c <= '9') || ('a' <= c && c <= 'f')
}

/// The hyphenated lower-case text of a version-4 UUID.
pub open spec fn is_uuid_text(s: Seq<char>) -> bool {
    &&& s.len() == 36
    &&& forall|i: int|
        0 <= i < 36 ==> if i == 8 || i == 13 || i == 18 || i == 23 {
            s[i] == '-'
        } else {
            is_lower_hex(#[trigger] s[i])
        }
    &&& s[14] == '4'
}

/// `uuid::Uuid::new_v4()` written out with `to_string`: a random version-4
/// UUID in its hyphenated lower-case form (`Display` for `Uuid` formats it
/// as `Hyphenated` lower-case hex). Which UUID comes back is chance.
#[verifier::external_body]
pub(crate) fn new_uuid_text() -> (res: String)
    ensures
        is_uuid_text(res@),
{
    uuid::Uuid::new_v4().to_string()
}

/// A 32-bit hash of a text: `h = h * 31 + c` over its characters, wrapping.
pub open spec fn text_hash(s: Seq<char>) -> u32
    decreases s.len(),
{
    if s.len() == 0 {
        0
    } else {
        (((text_hash(s.drop_last()) as nat * 31nat) % 0x1_0000_0000nat + (s.last() as u32) as nat)
            % 0x1_0000_0000nat) as u32
    }
}

/// The hash of a text.
pub fn text_hash_exec(s: &str) -> (res: u32)
    ensures
        res == text_hash(s@),
{
    let cs = crate::text::chars_of(s);
    let mut h: u32 = 0;
    let mut i: usize = 0;
    while i < cs.len()
        invariant
            i <= cs@.len(),
            cs@ == s@,
            h == text_hash(cs@.take(i as int)),
        decreases cs@.len() - i,
    {
        let c: u32 = cs[i] as u32;
        let m = h.wrapping_mul(31);
        let n = m.wrapping_add(c);
        proof {
            assert(cs@.take(i + 1).drop_last() =~= cs@.take(i as int));
            assert(n == (((h as nat * 31nat) % 0x1_0000_0000nat + c as nat) % 0x1_0000_0000nat) as u32)
                by (nonlinear_arith)
                requires
                    m == ((h as nat * 31nat) % 0x1_0000_0000nat) as u32,
                    n == (if m + c > u32::MAX {
                        (m + c - 0x1_0000_0000) as u32
                    } else {
                        (m + c) as u32
                    }),
            ;
        }
        h = n;
        i = i + 1;
    }
    assert(cs@.take(i as int) =~= cs@);
    h
}

/// A fresh generator seed: the hash of a fresh UUID.
pub fn random_seed() -> (res: u32)
    ensures
        exists|u: Seq<char>| is_uuid_text(u) && res == #[trigger] text_hash(u),
{
    let id = new_uuid_text();
    let h = text_hash_exec(id.as_str());
    assert(is_uuid_text(id@) && h == text_hash(id@));
    h
}

/// `chrono::Utc::now().timestamp_millis()`: the current time in milliseconds
/// since the Unix epoch. What it returns depends on the clock alone.
#[verifier::external_body]
pub(crate) fn now_millis() -> (res: i64) {
    chrono::Utc::now().timestamp_millis()
}

} // verus!
