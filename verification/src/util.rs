//! Small utilities: rendering a duration for humans, and a resizable
//! sliding window over a slice, used to walk the training set in batches
//! whose size the schedule may change between windows.

use vstd::prelude::*;

verus! {

use vstd::string::StringExecFns;

/// The decimal digits of a nonnegative number, most significant first.
pub open spec fn dec_digits(n: int) -> Seq<char>
    decreases n,
{
    if n < 10 {
        seq![digit_char(n)]
    } else {
        dec_digits(n / 10).push(digit_char(n % 10))
    }
}

/// The character of one decimal digit.
pub open spec fn digit_char(d: int) -> char {
    if d == 0 {
        '0'
    } else if d == 1 {
        '1'
    } else if d == 2 {
        '2'
    } else if d == 3 {
        '3'
    } else if d == 4 {
        '4'
    } else if d == 5 {
        '5'
    } else if d == 6 {
        '6'
    } else if d == 7 {
        '7'
    } else if d == 8 {
        '8'
    } else {
        '9'
    }
}

/// The single-character string of one decimal digit.
fn digit_str(d: u64) -> (r: &'static str)
    requires
        d < 10,
    ensures
        r@ =~= seq![digit_char(d as int)],
{
    proof {
        reveal_strlit("0");
        reveal_strlit("1");
        reveal_strlit("2");
        reveal_strlit("3");
        reveal_strlit("4");
        reveal_strlit("5");
        reveal_strlit("6");
        reveal_strlit("7");
        reveal_strlit("8");
        reveal_strlit("9");
    }
    if d == 0 {
        "0"
    } else if d == 1 {
        "1"
    } else if d == 2 {
        "2"
    } else if d == 3 {
        "3"
    } else if d == 4 {
        "4"
    } else if d == 5 {
        "5"
    } else if d == 6 {
        "6"
    } else if d == 7 {
        "7"
    } else if d == 8 {
        "8"
    } else {
        "9"
    }
}

/// The characters of collected digits, which were pushed least significant
/// first, read back most significant first.
pub open spec fn rev_digit_chars(ds: Seq<u64>) -> Seq<char>
    decreases ds.len(),
{
    if ds.len() == 0 {
        Seq::empty()
    } else {
        rev_digit_chars(ds.drop_first()).push(digit_char(ds[0] as int))
    }
}

/// Reading collected digits back most significant first prepends the one
/// pushed last.
proof fn lemma_rev_push(ds: Seq<u64>, e: u64)
    ensures
        rev_digit_chars(ds.push(e)) =~= seq![digit_char(e as int)] + rev_digit_chars(ds),
    decreases ds.len(),
{
    if ds.len() == 0 {
        assert(ds.push(e)[0] == e);
        assert(ds.push(e).drop_first() =~= Seq::<u64>::empty());
        assert(rev_digit_chars(Seq::<u64>::empty()) =~= Seq::<char>::empty());
        assert(rev_digit_chars(ds.push(e)) == rev_digit_chars(ds.push(e).drop_first()).push(
            digit_char(e as int),
        ));
    } else {
        assert(ds.push(e)[0] == ds[0]);
        assert(ds.push(e).drop_first() =~= ds.drop_first().push(e));
        lemma_rev_push(ds.drop_first(), e);
        assert(rev_digit_chars(ds.push(e)) == rev_digit_chars(ds.push(e).drop_first()).push(
            digit_char(ds[0] as int),
        ));
        assert(rev_digit_chars(ds.push(e).drop_first()) == rev_digit_chars(
            ds.drop_first().push(e),
        ));
        assert((seq![digit_char(e as int)] + rev_digit_chars(ds.drop_first())).push(
            digit_char(ds[0] as int),
        ) =~= seq![digit_char(e as int)] + rev_digit_chars(ds.drop_first()).push(
            digit_char(ds[0] as int),
        ));
    }
}

/// Render a number in decimal.
fn u64_to_string(n: u64) -> (r: String)
    ensures
        r@ =~= dec_digits(n as int),
{
    let mut digits: Vec<u64> = Vec::new();
    let mut m: u64 = n;
    digits.push(m % 10);
    m = m / 10;
    proof {
        assert(rev_digit_chars(seq![n % 10].drop_first()) =~= Seq::<char>::empty());
        assert(rev_digit_chars(seq![n % 10]) =~= seq![digit_char((n % 10) as int)]);
        assert(digits@ =~= seq![n % 10]);
        if m > 0 {
            assert(dec_digits(n as int) == dec_digits(n as int / 10).push(
                digit_char(n as int % 10),
            ));
        }
    }
    while m > 0
        invariant
            digits@.len() >= 1,
            forall|i: int| 0 <= i < digits@.len() ==> (#[trigger] digits@[i]) < 10,
            (if m > 0 {
                dec_digits(n as int) =~= dec_digits(m as int) + rev_digit_chars(digits@)
            } else {
                dec_digits(n as int) =~= rev_digit_chars(digits@)
            }),
        decreases m,
    {
        let ghost old_m = m as int;
        let ghost old_digits = digits@;
        let d = m % 10;
        digits.push(d);
        m = m / 10;
        proof {
            lemma_rev_push(old_digits, d);
            if old_m >= 10 {
                assert(dec_digits(old_m) == dec_digits(old_m / 10).push(digit_char(old_m % 10)));
            }
            assert(dec_digits(old_m) =~= dec_digits(old_m).drop_last().push(
                digit_char(old_m % 10),
            ) || old_m < 10);
            if m > 0 {
                assert(dec_digits(old_m) =~= dec_digits(m as int) + seq![digit_char(d as int)]);
                assert(dec_digits(n as int) =~= dec_digits(m as int) + rev_digit_chars(digits@));
            } else {
                assert(dec_digits(old_m) =~= seq![digit_char(d as int)]);
                assert(dec_digits(n as int) =~= rev_digit_chars(digits@));
            }
        }
    }
    let mut r = String::new();
    let mut i: usize = digits.len();
    proof {
        assert(rev_digit_chars(digits@.skip(i as int)) =~= Seq::<char>::empty());
    }
    while i > 0
        invariant
            i <= digits@.len(),
            forall|k: int| 0 <= k < digits@.len() ==> (#[trigger] digits@[k]) < 10,
            r@ =~= rev_digit_chars(digits@.skip(i as int)),
        decreases i,
    {
        i = i - 1;
        let d = digits[i];
        r.append(digit_str(d));
        proof {
            assert(digits@.skip(i as int)[0] == digits@[i as int]);
            assert(digits@.skip(i as int).drop_first() =~= digits@.skip(i + 1 as int));
            assert(rev_digit_chars(digits@.skip(i as int)) =~= rev_digit_chars(
                digits@.skip(i + 1 as int),
            ).push(digit_char(digits@[i as int] as int)));
        }
    }
    proof {
        assert(digits@.skip(0) =~= digits@);
    }
    r
}

/// One step of the duration rendering: if at least one whole `divisor`
/// remains, append its count and suffix (after a space unless first), and
/// keep the remainder.
pub open spec fn hd_step(acc: Seq<char>, remaining: int, divisor: int, sfx: Seq<char>) -> (
    Seq<char>,
    int,
) {
    if remaining >= divisor {
        let part = dec_digits(remaining / divisor) + sfx;
        (
            (if acc.len() > 0 {
                acc + seq![' '] + part
            } else {
                part
            }),
            remaining % divisor,
        )
    } else {
        (acc, remaining)
    }
}

/// The rendering of a duration: years down to seconds, each unit shown
/// only when present, `0s` when nothing is.
pub open spec fn human_duration_spec(secs: int) -> Seq<char> {
    let s6 = hd_all_steps(secs);
    if s6.0.len() == 0 {
        seq!['0', 's']
    } else {
        s6.0
    }
}

/// Append one unit of the rendering to the result, consuming what it
/// accounts for from the remaining seconds.
fn hd_push(result: &mut String, remaining: &mut u64, divisor: u64, suffix: &str)
    requires
        divisor > 0,
    ensures
        final(result)@ =~= hd_step(
            old(result)@,
            *old(remaining) as int,
            divisor as int,
            suffix@,
        ).0,
        *final(remaining) as int == hd_step(
            old(result)@,
            *old(remaining) as int,
            divisor as int,
            suffix@,
        ).1,
{
    proof {
        reveal_strlit(" ");
    }
    if *remaining >= divisor {
        let num = *remaining / divisor;
        *remaining = *remaining % divisor;
        if !result.as_str().is_empty() {
            result.append(" ");
        }
        let rendered = u64_to_string(num);
        result.append(rendered.as_str());
        result.append(suffix);
    }
}

/// The six rendering steps chained, before the empty fallback.
pub open spec fn hd_all_steps(secs: int) -> (Seq<char>, int) {
    let s1 = hd_step(Seq::empty(), secs, 25920000, seq!['y']);
    let s2 = hd_step(s1.0, s1.1, 2592000, seq!['M']);
    let s3 = hd_step(s2.0, s2.1, 86400, seq!['d']);
    let s4 = hd_step(s3.0, s3.1, 3600, seq!['h']);
    let s5 = hd_step(s4.0, s4.1, 60, seq!['m']);
    hd_step(s5.0, s5.1, 1, seq!['s'])
}

/// Run the six rendering steps.
#[verifier::rlimit(100)]
fn render_duration(duration_secs: u64) -> (r: String)
    ensures
        r@ =~= hd_all_steps(duration_secs as int).0,
{
    proof {
        reveal_strlit("y");
        reveal_strlit("M");
        reveal_strlit("d");
        reveal_strlit("h");
        reveal_strlit("m");
        reveal_strlit("s");
    }
    let mut result = String::new();
    let mut remaining: u64 = duration_secs;
    let ghost s1 = hd_step(Seq::empty(), duration_secs as int, 25920000, seq!['y']);
    hd_push(&mut result, &mut remaining, 25920000, "y");
    proof {
        assert(result@ =~= s1.0 && remaining as int == s1.1);
    }
    let ghost s2 = hd_step(s1.0, s1.1, 2592000, seq!['M']);
    hd_push(&mut result, &mut remaining, 2592000, "M");
    proof {
        assert(result@ =~= s2.0 && remaining as int == s2.1);
    }
    let ghost s3 = hd_step(s2.0, s2.1, 86400, seq!['d']);
    hd_push(&mut result, &mut remaining, 86400, "d");
    proof {
        assert(result@ =~= s3.0 && remaining as int == s3.1);
    }
    let ghost s4 = hd_step(s3.0, s3.1, 3600, seq!['h']);
    hd_push(&mut result, &mut remaining, 3600, "h");
    proof {
        assert(result@ =~= s4.0 && remaining as int == s4.1);
    }
    let ghost s5 = hd_step(s4.0, s4.1, 60, seq!['m']);
    hd_push(&mut result, &mut remaining, 60, "m");
    proof {
        assert(result@ =~= s5.0 && remaining as int == s5.1);
    }
    hd_push(&mut result, &mut remaining, 1, "s");
    result
}

/// Render a number of seconds the way a human reads it: whole years,
/// months, days, hours, minutes and seconds, only the units present,
/// separated by spaces; `0s` for nothing at all.
pub fn human_duration(duration_secs: u64) -> (r: String)
    ensures
        r@ =~= human_duration_spec(duration_secs as int),
{
    proof {
        reveal_strlit("0s");
    }
    let result = render_duration(duration_secs);
    if result.as_str().is_empty() {
        String::from_str("0s")
    } else {
        result
    }
}

/// The batch size a window iteration currently uses; it may be changed
/// between windows, and the next window picks the change up.
pub struct WindowIteratorConfig {
    size: usize,
}

impl WindowIteratorConfig {
    /// The configured window size.
    pub closed spec fn size_view(self) -> int {
        self.size as int
    }

    /// A configuration with the given window size.
    pub fn new(size: usize) -> (r: WindowIteratorConfig)
        ensures
            r.size_view() == size,
    {
        WindowIteratorConfig { size }
    }

    /// The configured window size.
    pub fn get_size(&self) -> (r: usize)
        ensures
            r as int == self.size_view(),
    {
        self.size
    }

    /// Change the window size; the next window uses it.
    pub fn set_size(&mut self, size: usize)
        ensures
            final(self).size_view() == size,
    {
        self.size = size;
    }
}

/// A sliding window over a slice; each call to `next` hands out the next
/// window of the configured size, the last one shortened to what remains.
pub struct WindowIterator<'a, T> {
    current_index: usize,
    data: &'a [T],
}

impl<'a, T> WindowIterator<'a, T> {
    /// The position the next window starts at.
    pub closed spec fn index_view(self) -> int {
        self.current_index as int
    }

    /// The underlying data.
    pub closed spec fn data_view(self) -> Seq<T> {
        self.data@
    }

    /// A window iterator over the whole slice.
    pub fn new(data: &'a [T]) -> (r: WindowIterator<'a, T>)
        ensures
            r.index_view() == 0,
            r.data_view() == data@,
    {
        WindowIterator { current_index: 0, data }
    }

    /// The size the next window will use: the configuration's current one.
    pub fn size(&self, conf: &WindowIteratorConfig) -> (r: usize)
        ensures
            r as int == conf.size_view(),
    {
        conf.get_size()
    }

    /// The next window: as many elements as the configuration asks for, or
    /// as many as remain; nothing when none remain or the size is zero.
    pub fn next(&mut self, conf: &WindowIteratorConfig) -> (r: Option<&'a [T]>)
        requires
            old(self).index_view() <= old(self).data_view().len(),
        ensures
            final(self).data_view() == old(self).data_view(),
            ({
                let window = vstd::math::min(
                    conf.size_view(),
                    old(self).data_view().len() - old(self).index_view(),
                );
                if window == 0 {
                    r is None && final(self).index_view() == old(self).index_view()
                } else {
                    &&& r is Some
                    &&& r->0@ =~= old(self).data_view().subrange(
                        old(self).index_view(),
                        old(self).index_view() + window,
                    )
                    &&& final(self).index_view() == old(self).index_view() + window
                }
            }),
    {
        let remaining = self.data.len() - self.current_index;
        let size = conf.get_size();
        let window = if size < remaining {
            size
        } else {
            remaining
        };
        if window == 0 {
            None
        } else {
            let out = vstd::slice::slice_subrange(
                self.data,
                self.current_index,
                self.current_index + window,
            );
            self.current_index = self.current_index + window;
            Some(out)
        }
    }
}

/// A window iterator over the given slice.
pub fn windows<'a, T>(slice: &'a [T]) -> (r: WindowIterator<'a, T>)
    ensures
        r.index_view() == 0,
        r.data_view() == slice@,
{
    WindowIterator::new(slice)
}

} // verus!
