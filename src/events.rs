//! Decisions taken when the chat platform reports an event or a command
//! changes a role.
use vstd::prelude::*;
use vstd::string::StrSliceExecFns;

verus! {

/// The names in `names`, separated by a comma and a space.
pub open spec fn joined(names: Seq<Seq<char>>) -> Seq<char>
    decreases names.len(),
{
    if names.len() == 0 {
        Seq::empty()
    } else if names.len() == 1 {
        names[0]
    } else {
        joined(names.drop_last()) + ", "@ + names.last()
    }
}

/// The name of the discussion thread opened when a message mentions roles:
/// the date in brackets, then the names of the mentioned roles.
pub fn thread_name(date: &str, role_names: &Vec<String>) -> (r: String)
    ensures
        r@ == "["@ + date@ + "] "@ + joined(role_names@.map_values(|n: String| n@))
            + " Discussion"@,
{
    let ghost names = role_names@.map_values(|n: String| n@);
    let mut list = String::new();
    let mut i: usize = 0;
    while i < role_names.len()
        invariant
            i <= role_names@.len(),
            names == role_names@.map_values(|n: String| n@),
            list@ == joined(names.subrange(0, i as int)),
        decreases role_names@.len() - i,
    {
        assert(names.subrange(0, i + 1).drop_last() == names.subrange(0, i as int));
        if i > 0 {
            list.append(", ");
        }
        list.append(role_names[i].as_str());
        i += 1;
    }
    assert(names.subrange(0, names.len() as int) == names);
    let mut name = String::from_str("[");
    name.append(date);
    name.append("] ");
    name.append(list.as_str());
    name.append(" Discussion");
    name
}

/// Whether a role that a user just left should be deleted: when nobody is
/// subscribed to it any more and no member of the guild holds it.
pub fn role_is_abandoned(subscribers: usize, held_by_a_member: bool) -> (r: bool)
    ensures
        r == (subscribers == 0 && !held_by_a_member),
{
    subscribers == 0 && !held_by_a_member
}

/// True for the characters `0` to `9`.
pub open spec fn is_digit(c: char) -> bool {
    48 <= (c as u32) <= 57
}

/// The number that the decimal digits `s` write.
pub open spec fn decimal_value(s: Seq<char>) -> int
    decreases s.len(),
{
    if s.len() == 0 {
        0
    } else {
        decimal_value(s.drop_last()) * 10 + ((s.last() as u32) - 48)
    }
}

/// True when every character of `s` is a decimal digit.
pub open spec fn all_digits(s: Seq<char>) -> bool {
    forall|i: int| 0 <= i < s.len() ==> is_digit(#[trigger] s[i])
}

/// `s` without a leading `+`, if it has one.
pub open spec fn unsigned_part(s: Seq<char>) -> Seq<char> {
    if s.len() > 0 && s[0] == '+' {
        s.drop_first()
    } else {
        s
    }
}

/// What a role identifier written as text stands for: an optional `+`
/// followed by at least one decimal digit, whose value fits in 64 bits.
pub open spec fn parsed_id(s: Seq<char>) -> Option<u64> {
    let digits = unsigned_part(s);
    if digits.len() > 0 && all_digits(digits) && decimal_value(digits) <= u64::MAX {
        Some(decimal_value(digits) as u64)
    } else {
        None
    }
}

/// A prefix of a digit string never writes a larger number.
proof fn lemma_decimal_prefix(s: Seq<char>, k: int)
    requires
        0 <= k <= s.len(),
        all_digits(s),
    ensures
        decimal_value(s.subrange(0, k)) <= decimal_value(s),
    decreases s.len(),
{
    if k < s.len() {
        let init = s.drop_last();
        assert(init.subrange(0, k) == s.subrange(0, k));
        assert(all_digits(init)) by {
            assert forall|i: int| 0 <= i < init.len() implies is_digit(#[trigger] init[i]) by {
                assert(init[i] == s[i]);
            }
        }
        lemma_decimal_prefix(init, k);
        assert(is_digit(s[s.len() - 1]));
        assert(decimal_value(init) >= 0) by {
            lemma_decimal_nonneg(init);
        }
    } else {
        assert(s.subrange(0, k) == s);
    }
}

proof fn lemma_decimal_nonneg(s: Seq<char>)
    requires
        all_digits(s),
    ensures
        decimal_value(s) >= 0,
    decreases s.len(),
{
    if s.len() > 0 {
        let init = s.drop_last();
        assert(all_digits(init)) by {
            assert forall|i: int| 0 <= i < init.len() implies is_digit(#[trigger] init[i]) by {
                assert(init[i] == s[i]);
            }
        }
        lemma_decimal_nonneg(init);
        assert(is_digit(s[s.len() - 1]));
    }
}

/// Reads the role identifier that a join button carries.
pub fn parse_role_id(text: &str) -> (r: Option<u64>)
    ensures
        r == parsed_id(text@),
{
    let n = text.unicode_len();
    let mut i: usize = 0;
    if n > 0 && text.get_char(0) == '+' {
        i = 1;
    }
    let start = i;
    let ghost digits = text@.subrange(start as int, n as int);
    assert(digits == unsigned_part(text@));
    if i == n {
        return None;
    }
    let mut v: u64 = 0;
    while i < n
        invariant
            n == text@.len(),
            start <= i <= n,
            start < n,
            digits == text@.subrange(start as int, n as int),
            digits == unsigned_part(text@),
            forall|k: int| 0 <= k < i - start ==> is_digit(#[trigger] digits[k]),
            v == decimal_value(digits.subrange(0, i - start)),
        decreases n - i,
    {
        let c = text.get_char(i);
        assert(digits[i - start] == c);
        if (c as u32) < 48 || (c as u32) > 57 {
            assert(!is_digit(digits[i - start]));
            return None;
        }
        let d: u64 = (c as u32 - 48) as u64;
        let ghost next = digits.subrange(0, i - start + 1);
        assert(next.drop_last() == digits.subrange(0, i - start));
        assert(decimal_value(next) == v * 10 + d);
        if v > (u64::MAX - d) / 10 {
            assert(v * 10 + d > u64::MAX) by (nonlinear_arith)
                requires
                    v > (u64::MAX - d) / 10,
                    d <= 9,
            ;
            proof {
                if all_digits(digits) {
                    lemma_decimal_prefix(digits, i - start + 1);
                }
            }
            return None;
        }
        assert(v * 10 + d <= u64::MAX) by (nonlinear_arith)
            requires
                v <= (u64::MAX - d) / 10,
                d <= 9,
        ;
        v = v * 10 + d;
        i += 1;
    }
    assert(digits.subrange(0, n - start) == digits);
    Some(v)
}

} // verus!
