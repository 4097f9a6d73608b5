use vstd::prelude::*;
use vstd::string::StrSliceExecFns;

verus! {

/// What `str::to_lowercase` gives for a text: Unicode lower-case mapping,
/// a function of the text alone.
pub uninterp spec fn lowercase(s: Seq<char>) -> Seq<char>;

/// What `str::to_uppercase` gives for a text: Unicode upper-case mapping,
/// a function of the text alone.
pub uninterp spec fn uppercase(s: Seq<char>) -> Seq<char>;

/// Calls `str::to_lowercase`. The contract claims only that the result is the
/// lower-case mapping of the argument, named by `lowercase`; the Unicode tables
/// behind it are not written out.
#[verifier::external_body]
pub(crate) fn to_lowercase(s: &str) -> (r: String)
    ensures
        r@ == lowercase(s@),
{
    s.to_lowercase()
}

/// Calls `str::to_uppercase`. The contract claims only that the result is the
/// upper-case mapping of the argument, named by `uppercase`; the Unicode tables
/// behind it are not written out.
#[verifier::external_body]
pub(crate) fn to_uppercase(s: &str) -> (r: String)
    ensures
        r@ == uppercase(s@),
{
    s.to_uppercase()
}

/// The character of a decimal digit.
pub open spec fn digit_char(d: nat) -> char {
    if d == 0 { '0' }
    else if d == 1 { '1' }
    else if d == 2 { '2' }
    else if d == 3 { '3' }
    else if d == 4 { '4' }
    else if d == 5 { '5' }
    else if d == 6 { '6' }
    else if d == 7 { '7' }
    else if d == 8 { '8' }
    else { '9' }
}

/// Decimal notation of a natural number, without sign or leading zeros.
pub open spec fn decimal(n: nat) -> Seq<char>
    decreases n,
{
    if n < 10 {
        seq![digit_char(n)]
    } else {
        decimal(n / 10).push(digit_char(n % 10))
    }
}

/// The text of a decimal digit.
fn digit_str(d: u32) -> (r: &'static str)
    requires
        d < 10,
    ensures
        r@ == seq![digit_char(d as nat)],
{
    if d == 0 {
        proof { reveal_strlit("0"); }
        "0"
    } else if d == 1 {
        proof { reveal_strlit("1"); }
        "1"
    } else if d == 2 {
        proof { reveal_strlit("2"); }
        "2"
    } else if d == 3 {
        proof { reveal_strlit("3"); }
        "3"
    } else if d == 4 {
        proof { reveal_strlit("4"); }
        "4"
    } else if d == 5 {
        proof { reveal_strlit("5"); }
        "5"
    } else if d == 6 {
        proof { reveal_strlit("6"); }
        "6"
    } else if d == 7 {
        proof { reveal_strlit("7"); }
        "7"
    } else if d == 8 {
        proof { reveal_strlit("8"); }
        "8"
    } else {
        proof { reveal_strlit("9"); }
        "9"
    }
}

/// The characters of a list of decimal digits.
pub open spec fn digits_text(ds: Seq<u32>) -> Seq<char> {
    ds.map_values(|d: u32| digit_char(d as nat))
}

/// Decimal text of an unsigned number, as `{}` formats it.
pub fn decimal_text(n: u32) -> (r: String)
    ensures
        r@ == decimal(n as nat),
{
    // digits least significant first
    let mut rev: Vec<u32> = Vec::new();
    let mut m: u32 = n;
    while m >= 10
        invariant
            decimal(n as nat) == decimal(m as nat) + digits_text(rev@.reverse()),
            forall|k: int| 0 <= k < rev@.len() ==> #[trigger] rev@[k] < 10,
        decreases m,
    {
        let ghost old_rev = rev@;
        let d = m % 10;
        rev.push(d);
        proof {
            assert(decimal(m as nat) == decimal((m / 10) as nat).push(digit_char((m % 10) as nat)));
            assert(rev@.reverse() =~= seq![d] + old_rev.reverse());
            assert(digits_text(rev@.reverse()) =~= seq![digit_char(d as nat)] + digits_text(old_rev.reverse()));
            assert(decimal(m as nat) + digits_text(old_rev.reverse()) =~= decimal((m / 10) as nat) + digits_text(rev@.reverse()));
        }
        m = m / 10;
    }
    let ghost old_rev = rev@;
    rev.push(m);
    proof {
        assert(decimal(m as nat) == seq![digit_char(m as nat)]);
        assert(rev@.reverse() =~= seq![m] + old_rev.reverse());
        assert(digits_text(rev@.reverse()) =~= seq![digit_char(m as nat)] + digits_text(old_rev.reverse()));
        assert(decimal(n as nat) =~= digits_text(rev@.reverse()));
    }
    let mut s = String::new();
    let len = rev.len();
    let mut i: usize = len;
    while i > 0
        invariant
            i <= len,
            len == rev@.len(),
            forall|k: int| 0 <= k < rev@.len() ==> #[trigger] rev@[k] < 10,
            s@ =~= digits_text(rev@.reverse().subrange(0, (len - i) as int)),
        decreases i,
    {
        i = i - 1;
        let ghost before = s@;
        s.append(digit_str(rev[i]));
        proof {
            assert(rev@.reverse().subrange(0, (len - i) as int) =~= rev@.reverse().subrange(
                0,
                (len - i - 1) as int,
            ).push(rev@[i as int]));
        }
    }
    proof {
        assert(rev@.reverse().subrange(0, len as int) =~= rev@.reverse());
    }
    s
}

/// The label of an entity button: texts of more than 19 characters are cut to
/// their first 18, followed by "..".
pub open spec fn button_label(s: Seq<char>) -> Seq<char> {
    if s.len() > 19 {
        s.take(18) + seq!['.', '.']
    } else {
        s
    }
}

/// The label of an entity button (see `button_label`).
pub fn format_button_text(val: &str) -> (r: String)
    ensures
        r@ == button_label(val@),
{
    let n = val.unicode_len();
    if n > 19 {
        let head = val.substring_char(0, 18);
        let mut s = String::from_str(head);
        s.append("..");
        proof {
            reveal_strlit("..");
            assert(s@ =~= val@.take(18) + seq!['.', '.']);
        }
        s
    } else {
        String::from_str(val)
    }
}

} // verus!
