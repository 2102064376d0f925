use vstd::prelude::*;

verus! {

/// The layout of the date and time in an export's file name.
pub open spec fn stamp_template() -> Seq<char> {
    "%Y%m%d_%H%M%S_%f"@
}

pub open spec fn is_digit(c: char) -> bool {
    '0' <= c <= '9'
}

/// The shape of a stamp written by [`stamp_template`]: the year, as four
/// digits or as a sign and at least four digits, then month and day (two
/// digits each), `_`, hour, minute and second (two digits each), `_`, and
/// nine digits of nanoseconds.
pub open spec fn stamp_layout(s: Seq<char>) -> bool {
    let n = s.len();
    let y = n - 21;
    &&& n >= 25
    &&& s[n - 17] == '_'
    &&& s[n - 10] == '_'
    &&& forall|i: int| y <= i < n && i != n - 17 && i != n - 10 ==> is_digit(#[trigger] s[i])
    &&& {
        ||| y == 4 && forall|i: int| 0 <= i < y ==> is_digit(#[trigger] s[i])
        ||| y >= 5 && (s[0] == '+' || s[0] == '-') && forall|i: int|
            1 <= i < y ==> is_digit(#[trigger] s[i])
    }
}

/// Relies on chrono::Local::now and DateTime::format: the local date and
/// time now, written by `template`. Nothing is promised of the clock reading
/// itself. `template` is one that chrono accepts, so formatting does not
/// fail, and chrono writes `%Y` zero-padded to four digits with a sign
/// outside years 0 to 9999, `%m %d %H %M %S` as two digits each and `%f` as
/// nine digits.
#[verifier::external_body]
fn local_now_formatted(template: &str) -> (r: String)
    requires
        template@ == stamp_template(),
    ensures
        stamp_layout(r@),
{
    chrono::Local::now().format(template).to_string()
}

/// The file name proposed for an export taken at `stamp`.
pub fn export_filename(stamp: &str) -> (r: String)
    ensures
        r@ == "ethotimer_"@ + stamp@ + ".csv"@,
{
    let mut s = String::from_str("ethotimer_");
    s.append(stamp);
    s.append(".csv");
    s
}

/// The file name proposed for an export taken now, by the local date and
/// time (year, month, day, then hour, minute, second, then nanoseconds).
pub fn proposed_filename() -> (r: String)
    ensures
        exists|stamp: Seq<char>|
            #![trigger stamp_layout(stamp)]
            stamp_layout(stamp) && r@ == "ethotimer_"@ + stamp + ".csv"@,
{
    let stamp = local_now_formatted("%Y%m%d_%H%M%S_%f");
    let r = export_filename(stamp.as_str());
    assert(stamp_layout(stamp@) && r@ == "ethotimer_"@ + stamp@ + ".csv"@);
    r
}

} // verus!
