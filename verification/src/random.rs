use vstd::prelude::*;
use rand::Rng;
use crate::record::Record;
use crate::record::FEATURE_COUNT;

verus! {

/// Number of characters in the label of a random record.
pub const RANDOM_LABEL_LENGTH: usize = 7;

/// Smallest feature value of a random record: a tenth of `UNIT`.
pub const RANDOM_FEATURE_LOW: i32 = 100_000;

/// Bound below which the feature values of a random record stay: seven times `UNIT`.
pub const RANDOM_FEATURE_HIGH: i32 = 7_000_000;

/// The ASCII code of a letter or of a digit.
pub open spec fn is_alphanumeric(b: u8) -> bool {
    ||| 0x30 <= b <= 0x39
    ||| 0x41 <= b <= 0x5a
    ||| 0x61 <= b <= 0x7a
}

/// An ASCII letter or digit.
pub open spec fn is_alphanumeric_char(c: char) -> bool {
    ||| 0x30 <= c as u32 <= 0x39
    ||| 0x41 <= c as u32 <= 0x5a
    ||| 0x61 <= c as u32 <= 0x7a
}

/// The random number generator of the current thread, from the crate `rand`.
#[verifier::external_type_specification]
#[verifier::external_body]
pub struct ExThreadRng(rand::rngs::ThreadRng);

/// `rand::thread_rng` hands out the generator of the current thread. Nothing
/// is claimed of it. It fails only where the operating system cannot seed
/// the generator; a later draw fails only where the operating system refuses
/// fresh entropy when the generator seeds itself anew.
pub assume_specification[ rand::thread_rng ]() -> (rng: rand::rngs::ThreadRng)
;

/// `String::push` appends one character to the string.
pub assume_specification[ String::push ](s: &mut String, ch: char)
    ensures
        final(s)@ == old(s)@.push(ch),
;

/// `Rng::gen_range` on a half-open range of integers: the sample is at least
/// `low` and less than `high`. Which value it is depends on chance, so nothing
/// more is claimed. An empty range is left out, as `gen_range` refuses it.
/// The draw fails only where the generator seeds itself anew and the
/// operating system refuses the entropy for it.
#[verifier::external_body]
fn sample_in_range(rng: &mut rand::rngs::ThreadRng, low: i32, high: i32) -> (value: i32)
    requires
        low < high,
    ensures
        low <= value < high,
{
    rng.gen_range(low..high)
}

/// `Rng::sample` with the distribution `Alphanumeric`: the sample is the
/// ASCII code of a letter or of a digit. Which one depends on chance. The
/// draw fails only where the generator seeds itself anew and the operating
/// system refuses the entropy for it.
#[verifier::external_body]
fn sample_alphanumeric(rng: &mut rand::rngs::ThreadRng) -> (code: u8)
    ensures
        is_alphanumeric(code),
{
    rng.sample(rand::distributions::Alphanumeric)
}

impl Record {
    /// A record made by chance: every feature at least `RANDOM_FEATURE_LOW`
    /// and below `RANDOM_FEATURE_HIGH`, and a label of `RANDOM_LABEL_LENGTH`
    /// ASCII letters and digits.
    pub fn rand_flower() -> (out: Record)
        ensures
            out.well_formed(),
            out.label@.len() == RANDOM_LABEL_LENGTH,
            forall|i: int|
                0 <= i < RANDOM_LABEL_LENGTH ==> is_alphanumeric_char(#[trigger] out.label@[i]),
            forall|c: int|
                0 <= c < FEATURE_COUNT ==> RANDOM_FEATURE_LOW <= (#[trigger] out.features[c])
                    < RANDOM_FEATURE_HIGH,
    {
        let mut rng = rand::thread_rng();
        let mut label = String::new();
        let mut n: usize = 0;
        while n < RANDOM_LABEL_LENGTH
            invariant
                n <= RANDOM_LABEL_LENGTH,
                label@.len() == n,
                forall|i: int| 0 <= i < n ==> is_alphanumeric_char(#[trigger] label@[i]),
            decreases RANDOM_LABEL_LENGTH - n,
        {
            let code: u8 = sample_alphanumeric(&mut rng);
            label.push(code as char);
            n = n + 1;
        }
        let mut features: [i32; FEATURE_COUNT] = [0; FEATURE_COUNT];
        let mut c: usize = 0;
        while c < FEATURE_COUNT
            invariant
                c <= FEATURE_COUNT,
                forall|b: int|
                    0 <= b < c ==> RANDOM_FEATURE_LOW <= (#[trigger] features[b])
                        < RANDOM_FEATURE_HIGH,
            decreases FEATURE_COUNT - c,
        {
            features[c] = sample_in_range(&mut rng, RANDOM_FEATURE_LOW, RANDOM_FEATURE_HIGH);
            c = c + 1;
        }
        Record { features, label }
    }
}

} // verus!
