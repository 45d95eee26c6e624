use vstd::prelude::*;

use vstd::string::StrSliceExecFns;

verus! {

#[verifier::external_type_specification]
#[verifier::external_body]
pub struct ExIni(ini::Ini);

#[verifier::external_type_specification]
#[verifier::external_body]
pub struct ExIniParseError(ini::ParseError);

/// What a parsed configuration holds: the first value stored under
/// each (section, key) pair.
pub uninterp spec fn ini_entries(conf: ini::Ini) -> Map<(Seq<char>, Seq<char>), Seq<char>>;

/// What parsing a configuration text yields: its entries, or nothing
/// when the text is not well-formed section/key=value syntax.
pub uninterp spec fn ini_parse_map(text: Seq<char>) -> Option<
    Map<(Seq<char>, Seq<char>), Seq<char>>,
>;

/// Relies on ini's `Ini::load_from_str`: parsing is a function of the
/// text alone; a well-formed text yields its entries and any other
/// text is rejected.
#[verifier::external_body]
pub(crate) fn ini_load(text: &str) -> (r: Result<ini::Ini, ini::ParseError>)
    ensures
        match r {
            Ok(conf) => ini_parse_map(text@) == Some(ini_entries(conf)),
            Err(_) => ini_parse_map(text@) is None,
        },
{
    ini::Ini::load_from_str(text)
}

/// Relies on ini's `Ini::get_from`: returns the first value stored
/// under the section and key, or nothing when there is none.
#[verifier::external_body]
pub(crate) fn ini_get(conf: &ini::Ini, section: &str, key: &str) -> (r: Option<String>)
    ensures
        match r {
            Some(v) => ini_entries(*conf).contains_key((section@, key@)) && ini_entries(*conf)[
                (section@, key@)
            ] == v@,
            None => !ini_entries(*conf).contains_key((section@, key@)),
        },
{
    conf.get_from(Some(section), key).map(|v| v.to_string())
}

/// Relies on ini's `Ini::new`: a fresh configuration holds no entries.
#[verifier::external_body]
pub(crate) fn ini_new() -> (r: ini::Ini)
    ensures
        ini_entries(r) =~= Map::empty(),
{
    ini::Ini::new()
}

/// Relies on ini's `Ini::set_to`: stores the value under the section
/// and key, replacing any earlier first value.
#[verifier::external_body]
pub(crate) fn ini_set(conf: &mut ini::Ini, section: &str, key: &str, value: &str)
    ensures
        ini_entries(*final(conf)) == ini_entries(*old(conf)).insert((section@, key@), value@),
{
    conf.set_to(Some(section), key.to_string(), value.to_string())
}

/// ASCII decimal digit, as a character.
pub open spec fn is_digit_char(c: char) -> bool {
    48 <= c as u32 <= 57
}

/// Every character of the text is a decimal digit.
pub open spec fn all_digit_chars(s: Seq<char>) -> bool {
    forall|i: int| 0 <= i < s.len() ==> is_digit_char(#[trigger] s[i])
}

/// The number a digit text denotes, most significant digit first.
pub open spec fn dec_value_chars(s: Seq<char>) -> int
    decreases s.len(),
{
    if s.len() == 0 {
        0
    } else {
        dec_value_chars(s.drop_last()) * 10 + (s.last() as u32 - 48)
    }
}

/// A digit text denotes a nonnegative number.
pub proof fn lemma_dec_value_chars_nonneg(s: Seq<char>)
    requires
        all_digit_chars(s),
    ensures
        dec_value_chars(s) >= 0,
    decreases s.len(),
{
    if s.len() > 0 {
        assert(all_digit_chars(s.drop_last()));
        lemma_dec_value_chars_nonneg(s.drop_last());
    }
}

/// Extending a digit text to the right never decreases its value.
pub proof fn lemma_dec_value_chars_extend(s: Seq<char>, i: int, j: int)
    requires
        all_digit_chars(s),
        0 <= i <= j <= s.len(),
    ensures
        dec_value_chars(s.subrange(0, i)) <= dec_value_chars(s.subrange(0, j)),
    decreases j - i,
{
    if i < j {
        let t = s.subrange(0, j);
        assert(t.drop_last() =~= s.subrange(0, j - 1));
        assert(all_digit_chars(s.subrange(0, j - 1)));
        lemma_dec_value_chars_nonneg(s.subrange(0, j - 1));
        assert(dec_value_chars(t) == dec_value_chars(s.subrange(0, j - 1)) * 10 + (t.last() as u32
            - 48));
        assert(dec_value_chars(s.subrange(0, j - 1)) <= dec_value_chars(s.subrange(0, j - 1)) * 10)
            by (nonlinear_arith)
            requires
                dec_value_chars(s.subrange(0, j - 1)) >= 0,
        ;
        lemma_dec_value_chars_extend(s, i, j - 1);
    }
}

/// Parse a version value as an unsigned integer; `None` when the text
/// is empty, not all digits, or denotes more than `u32::MAX`.
pub fn parse_version(s: &str) -> (r: Option<u32>)
    ensures
        match r {
            Some(v) => s@.len() > 0 && all_digit_chars(s@) && v as int == dec_value_chars(s@),
            None => s@.len() == 0 || !all_digit_chars(s@) || dec_value_chars(s@) > u32::MAX,
        },
{
    let n = s.unicode_len();
    if n == 0 {
        return None;
    }
    let mut acc: u64 = 0;
    let mut i: usize = 0;
    proof {
        assert(s@.subrange(0, 0) =~= Seq::<char>::empty());
    }
    while i < n
        invariant
            0 <= i <= n,
            n == s@.len(),
            acc <= u32::MAX,
            forall|j: int| 0 <= j < i ==> is_digit_char(#[trigger] s@[j]),
            acc as int == dec_value_chars(s@.subrange(0, i as int)),
        decreases n - i,
    {
        let c = s.get_char(i);
        let u = c as u32;
        if u < 48 || u > 57 {
            return None;
        }
        let d: u64 = (u - 48) as u64;
        proof {
            assert(s@.subrange(0, i + 1).drop_last() =~= s@.subrange(0, i as int));
            assert(s@.subrange(0, i + 1).last() == s@[i as int]);
        }
        acc = acc * 10 + d;
        i = i + 1;
        if acc > u32::MAX as u64 {
            if check_digit_suffix(s, i) {
                proof {
                    assert forall|j: int| 0 <= j < s@.len() implies is_digit_char(
                        #[trigger] s@[j],
                    ) by {
                        if j < i {
                        } else {
                        }
                    }
                    assert(s@.subrange(0, i as int).len() == i);
                    lemma_dec_value_chars_extend(s@, i as int, s@.len() as int);
                    assert(s@.subrange(0, s@.len() as int) =~= s@);
                }
            }
            return None;
        }
    }
    proof {
        assert(s@.subrange(0, s@.len() as int) =~= s@);
    }
    Some(acc as u32)
}

/// Whether every character at or after position `i` is a digit.
fn check_digit_suffix(s: &str, i: usize) -> (r: bool)
    requires
        i <= s@.len(),
    ensures
        r == forall|j: int| i <= j < s@.len() ==> is_digit_char(#[trigger] s@[j]),
{
    let n = s.unicode_len();
    let mut k: usize = i;
    while k < n
        invariant
            i <= k <= n,
            n == s@.len(),
            forall|j: int| i <= j < k ==> is_digit_char(#[trigger] s@[j]),
        decreases n - k,
    {
        let c = s.get_char(k);
        let u = c as u32;
        if u < 48 || u > 57 {
            return false;
        }
        k = k + 1;
    }
    true
}

} // verus!
