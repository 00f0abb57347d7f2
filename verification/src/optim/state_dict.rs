//! Saving and restoring what an optimizer has accumulated.
//!
//! A saved state is a [`StateDict`] with these entries:
//!
//! - `__optimizer__.<kind>`: a marker of shape `[1]` that holds the format
//!   version. It tells the states of different optimizers apart.
//! - `step_count.u64_u16x4` and `num_slots.u64_u16x4`.
//! - `beta1_pow_t.f64_u16x4`, `beta2_pow_t.f64_u16x4` and `mu_product`, for the
//!   optimizers that have them.
//! - `state.<i>.<buffer>`: each buffer of each slot.
//!
//! A 64-bit value is cut into four words of 16 bits, the lowest first, and each
//! word is held as a number of equal value. Nothing is lost in this way, and no
//! word is a bit pattern that a tool might normalise.
//!
//! Hyperparameters are not saved.
use crate::dict::StateDict;
use crate::error::{AutodiffError, ErrorModel};
use crate::number::{Double, Real, Single, in_unit_range, one, zero};
use crate::tensor::{Tensor, TensorModel, copied, count, countable, same_shape, with_shape};
use crate::text::{
    bracketed, bracketed_text, bracketed_texts, followed_by, followed_by_count, joined, list_quoted,
    long_numeral_text, numeral, numeral_has_no_dot, numeral_text, numerals_are_distinct, ordered,
    pushed_contains, split_at_dot_is_unique, text_models, texts_without,
};
use vstd::prelude::*;

verus! {

/// The key of the step counter.
pub const STEP_COUNT_KEY: &'static str = "step_count.u64_u16x4";

/// The key of the number of slots.
pub const NUM_SLOTS_KEY: &'static str = "num_slots.u64_u16x4";

/// The key of the running power of the first decay rate.
pub const BETA1_POW_T_KEY: &'static str = "beta1_pow_t.f64_u16x4";

/// The key of the running power of the second decay rate.
pub const BETA2_POW_T_KEY: &'static str = "beta2_pow_t.f64_u16x4";

/// The key of the running product of momentum factors.
pub const MU_PRODUCT_KEY: &'static str = "mu_product";

/// The name under which a kind of optimizer marks its states.
pub open spec fn marker_name(kind: Seq<char>) -> Seq<char> {
    "__optimizer__."@ + kind
}

/// The name of a buffer of slot `index`.
pub open spec fn slot_name(index: nat, buffer: Seq<char>) -> Seq<char> {
    "state."@ + numeral(index) + "."@ + buffer
}

/// The marker key of a kind of optimizer.
pub fn marker_key(kind: &str) -> (r: String)
    ensures
        r@ == marker_name(kind@),
{
    joined("__optimizer__.", kind)
}

/// The key of a buffer of slot `index`.
pub fn slot_key(index: usize, buffer: &str) -> (r: String)
    ensures
        r@ == slot_name(index as nat, buffer@),
{
    let mut key: String = joined("state.", numeral_text(index).as_str());
    key.append(".");
    key.append(buffer);
    key
}

/// Different slots or buffers have different keys.
pub proof fn slot_keys_are_distinct(i: nat, a: Seq<char>, j: nat, b: Seq<char>)
    requires
        slot_name(i, a) == slot_name(j, b),
    ensures
        i == j,
        a == b,
{
    reveal_strlit(".");
    let front = "state."@;
    let s = slot_name(i, a);
    let t = slot_name(j, b);
    let n = front.len() as int;
    assert(s.skip(n) =~= numeral(i).push('.') + a);
    assert(t.skip(n) =~= numeral(j).push('.') + b);
    numeral_has_no_dot(i);
    numeral_has_no_dot(j);
    split_at_dot_is_unique(numeral(i), a, numeral(j), b);
    numerals_are_distinct(i, j);
}

/// No slot buffer has the key of the marker or of a scalar.
pub proof fn slot_keys_are_not_scalar_keys(i: nat, buffer: Seq<char>, kind: Seq<char>)
    ensures
        slot_name(i, buffer) != marker_name(kind),
        slot_name(i, buffer) != STEP_COUNT_KEY@,
        slot_name(i, buffer) != NUM_SLOTS_KEY@,
        slot_name(i, buffer) != BETA1_POW_T_KEY@,
        slot_name(i, buffer) != BETA2_POW_T_KEY@,
        slot_name(i, buffer) != MU_PRODUCT_KEY@,
{
    reveal_strlit("state.");
    reveal_strlit("__optimizer__.");
    reveal_strlit("step_count.u64_u16x4");
    reveal_strlit("num_slots.u64_u16x4");
    reveal_strlit("beta1_pow_t.f64_u16x4");
    reveal_strlit("beta2_pow_t.f64_u16x4");
    reveal_strlit("mu_product");
    let s = slot_name(i, buffer);
    assert(s[0] == 's' && s[2] == 'a');
    assert(marker_name(kind)[0] == '_');
    assert(STEP_COUNT_KEY@[2] == 'e');
    assert(NUM_SLOTS_KEY@[0] == 'n');
    assert(BETA1_POW_T_KEY@[0] == 'b');
    assert(BETA2_POW_T_KEY@[0] == 'b');
    assert(MU_PRODUCT_KEY@[0] == 'm');
}

/// The marker and the scalars have different keys.
pub proof fn scalar_keys_are_distinct(kind: Seq<char>)
    ensures
        marker_name(kind) != STEP_COUNT_KEY@,
        marker_name(kind) != NUM_SLOTS_KEY@,
        marker_name(kind) != BETA1_POW_T_KEY@,
        marker_name(kind) != BETA2_POW_T_KEY@,
        marker_name(kind) != MU_PRODUCT_KEY@,
        STEP_COUNT_KEY@ != NUM_SLOTS_KEY@,
        STEP_COUNT_KEY@ != BETA1_POW_T_KEY@,
        STEP_COUNT_KEY@ != BETA2_POW_T_KEY@,
        STEP_COUNT_KEY@ != MU_PRODUCT_KEY@,
        NUM_SLOTS_KEY@ != BETA1_POW_T_KEY@,
        NUM_SLOTS_KEY@ != BETA2_POW_T_KEY@,
        NUM_SLOTS_KEY@ != MU_PRODUCT_KEY@,
        BETA1_POW_T_KEY@ != BETA2_POW_T_KEY@,
        BETA1_POW_T_KEY@ != MU_PRODUCT_KEY@,
        BETA2_POW_T_KEY@ != MU_PRODUCT_KEY@,
{
    reveal_strlit("__optimizer__.");
    reveal_strlit("step_count.u64_u16x4");
    reveal_strlit("num_slots.u64_u16x4");
    reveal_strlit("beta1_pow_t.f64_u16x4");
    reveal_strlit("beta2_pow_t.f64_u16x4");
    reveal_strlit("mu_product");
    assert(marker_name(kind)[0] == '_');
    assert(STEP_COUNT_KEY@[0] == 's');
    assert(NUM_SLOTS_KEY@[0] == 'n');
    assert(BETA1_POW_T_KEY@[4] == '1');
    assert(BETA2_POW_T_KEY@[4] == '2');
    assert(BETA1_POW_T_KEY@[0] == 'b');
    assert(BETA2_POW_T_KEY@[0] == 'b');
    assert(MU_PRODUCT_KEY@[0] == 'm');
}

/// Word `i` of a 64-bit value, counted from the lowest.
pub open spec fn word_of(bits: u64, i: int) -> u16 {
    if i == 0 {
        (bits % 0x1_0000) as u16
    } else if i == 1 {
        (bits / 0x1_0000 % 0x1_0000) as u16
    } else if i == 2 {
        (bits / 0x1_0000_0000 % 0x1_0000) as u16
    } else {
        (bits / 0x1_0000_0000_0000) as u16
    }
}

/// The four words of a 64-bit value as numbers.
pub open spec fn words_of<S: Single>(bits: u64) -> Seq<S> {
    seq![
        S::of_word(word_of(bits, 0)),
        S::of_word(word_of(bits, 1)),
        S::of_word(word_of(bits, 2)),
        S::of_word(word_of(bits, 3)),
    ]
}

/// Whether a number stands for a word.
pub open spec fn is_word<S: Single>(x: S) -> bool {
    x.finite() && x.integral() && zero::<S>().at_most(x) && x.at_most(S::decimal(65535, 0))
}

/// The refusal of the entry under `key`.
pub open spec fn entry_refused(key: Seq<char>, reason: Seq<char>) -> ErrorModel {
    ErrorModel::InvalidArgument("OptimizerStateDict::load_state_dict: `"@ + key + "` "@ + reason)
}

fn refuse_entry(key: &str, reason: String) -> (r: AutodiffError)
    ensures
        r@ == entry_refused(key@, reason@),
{
    let text: String = joined("OptimizerStateDict::load_state_dict: `", key);
    AutodiffError::InvalidArgument(followed_by(followed_by(text, "` "), reason.as_str()))
}

/// The refusal of a state for optimizers of a kind.
pub open spec fn state_refused(kind: Seq<char>, reason: Seq<char>) -> ErrorModel {
    ErrorModel::InvalidArgument(
        "OptimizerStateDict::load_state_dict（kind=`"@ + kind + "`）: "@ + reason,
    )
}

fn refuse_state(kind: &str, reason: String) -> (r: AutodiffError)
    ensures
        r@ == state_refused(kind@, reason@),
{
    let text: String = joined("OptimizerStateDict::load_state_dict（kind=`", kind);
    AutodiffError::InvalidArgument(followed_by(followed_by(text, "`）: "), reason.as_str()))
}

/// What is said of a wrong number of words.
pub open spec fn word_count_fault(words: nat) -> Seq<char> {
    "must have exactly 4 elements (u16x4 encoding), got "@ + numeral(words)
}

/// The first of four numbers that does not stand for a word.
pub open spec fn bad_word<S: Single>(words: Seq<S>) -> int {
    if !is_word(words[0]) {
        0
    } else if !is_word(words[1]) {
        1
    } else if !is_word(words[2]) {
        2
    } else {
        3
    }
}

/// What is said of number `i`, which does not stand for a word.
pub open spec fn word_fault<S: Single>(words: Seq<S>, i: int) -> Seq<char> {
    "word "@ + numeral(i as nat) + " must be a finite integer in [0.0, 65535.0], got "@
        + words[i].shown()
}

/// What is said of a shape that is not the expected one.
pub open spec fn shape_fault(expected: &str, shape: Seq<usize>) -> Seq<char> {
    expected@ + ", got "@ + bracketed(shape)
}

fn tell_shape(expected: &str, shape: &[usize]) -> (r: String)
    ensures
        r@ == shape_fault(expected, shape@),
{
    followed_by(joined(expected, ", got "), bracketed_text(shape).as_str())
}

/// What is said of a number that does not lie from zero to one.
pub open spec fn range_fault<R: Real>(value: R) -> Seq<char> {
    "must be finite and in [0.0, 1.0], got "@ + value.shown()
}

fn tell_range<R: Real>(value: R) -> (r: String)
    ensures
        r@ == range_fault(value),
{
    joined("must be finite and in [0.0, 1.0], got ", value.show().as_str())
}

/// The 64-bit value that four words stand for.
pub open spec fn bits_of_words<S: Single>(key: Seq<char>, words: Seq<S>) -> Result<
    u64,
    ErrorModel,
> {
    if words.len() != 4 {
        Err(entry_refused(key, word_count_fault(words.len())))
    } else if !(is_word(words[0]) && is_word(words[1]) && is_word(words[2]) && is_word(words[3])) {
        Err(entry_refused(key, word_fault(words, bad_word(words))))
    } else {
        Ok(
            (words[0].word() + words[1].word() * 0x1_0000 + words[2].word() * 0x1_0000_0000
                + words[3].word() * 0x1_0000_0000_0000) as u64,
        )
    }
}

/// Cutting a 64-bit value into words and putting them together again gives the
/// value back.
pub proof fn words_round_trip<S: Single>(key: Seq<char>, bits: u64)
    ensures
        bits_of_words::<S>(key, words_of(bits)) == Ok::<u64, ErrorModel>(bits),
{
    S::words_are_exact(word_of(bits, 0));
    S::words_are_exact(word_of(bits, 1));
    S::words_are_exact(word_of(bits, 2));
    S::words_are_exact(word_of(bits, 3));
    let b = bits as int;
    assert(b == b % 0x1_0000 + (b / 0x1_0000 % 0x1_0000) * 0x1_0000 + (b / 0x1_0000_0000 % 0x1_0000)
        * 0x1_0000_0000 + (b / 0x1_0000_0000_0000) * 0x1_0000_0000_0000);
}

/// Cuts a 64-bit value into four words.
pub fn encode_bits_u16x4<S: Single>(bits: u64) -> (r: [S; 4])
    ensures
        r@ == words_of::<S>(bits),
{
    let r: [S; 4] = [
        S::from_word((bits % 0x1_0000) as u16),
        S::from_word((bits / 0x1_0000 % 0x1_0000) as u16),
        S::from_word((bits / 0x1_0000_0000 % 0x1_0000) as u16),
        S::from_word((bits / 0x1_0000_0000_0000) as u16),
    ];
    assert(r@ =~= words_of::<S>(bits));
    r
}

fn holds_word<S: Single>(x: S) -> (r: bool)
    ensures
        r == is_word(x),
{
    x.is_finite() && x.is_integral() && S::literal(0, 0).le(x) && x.le(S::literal(65535, 0))
}

/// Puts four words together again.
pub fn decode_bits_u16x4<S: Single>(key: &str, data: &[S]) -> (r: Result<u64, AutodiffError>)
    ensures
        match r {
            Ok(bits) => bits_of_words(key@, data@) == Ok::<u64, ErrorModel>(bits),
            Err(e) => bits_of_words(key@, data@) == Err::<u64, _>(e@),
        },
{
    if data.len() != 4 {
        let text: String = numeral_text(data.len());
        return Err(
            refuse_entry(
                key,
                joined("must have exactly 4 elements (u16x4 encoding), got ", text.as_str()),
            ),
        );
    }
    let mut i: usize = 0;
    while i < 4
        invariant
            i <= 4,
            data@.len() == 4,
            forall|k: int| 0 <= k < i ==> is_word(#[trigger] data@[k]),
        decreases 4 - i,
    {
        if !holds_word(data[i]) {
            assert(i == bad_word(data@));
            let text: String = followed_by_count("word ".to_owned(), i);
            let text: String = followed_by(
                text,
                " must be a finite integer in [0.0, 65535.0], got ",
            );
            return Err(refuse_entry(key, followed_by(text, data[i].show().as_str())));
        }
        i = i + 1;
    }
    assert(is_word(data@[0]) && is_word(data@[1]) && is_word(data@[2]) && is_word(data@[3]));
    Ok(
        data[0].to_word() as u64 + data[1].to_word() as u64 * 0x1_0000 + data[2].to_word() as u64
            * 0x1_0000_0000 + data[3].to_word() as u64 * 0x1_0000_0000_0000,
    )
}

/// The tensor that holds a 64-bit value.
pub open spec fn bits_tensor<S: Single>(bits: u64) -> TensorModel<S> {
    TensorModel { shape: seq![4usize], data: words_of(bits) }
}

/// The 64-bit value that a tensor holds.
pub open spec fn tensor_bits<S: Single>(key: Seq<char>, tensor: TensorModel<S>) -> Result<
    u64,
    ErrorModel,
> {
    if tensor.shape != seq![4usize] {
        Err(entry_refused(key, shape_fault("must have shape [4]", tensor.shape)))
    } else {
        bits_of_words(key, tensor.data)
    }
}

pub(crate) proof fn count_of_one_dimension(n: usize)
    ensures
        count(seq![n]) == n,
        countable(seq![n]),
{
    reveal_with_fuel(count, 2);
    reveal_with_fuel(countable, 2);
    let front = seq![n].drop_last();
    assert(front =~= Seq::empty());
    assert(count(front) * (n as nat) == n) by (nonlinear_arith)
        requires
            count(front) == 1,
    ;
}

/// A tensor of shape `[4]` that holds the words of `bits`.
pub fn encode_u16x4_tensor<S: Single>(bits: u64) -> (r: Tensor<S>)
    ensures
        r@ == bits_tensor::<S>(bits),
{
    let words: [S; 4] = encode_bits_u16x4(bits);
    let mut data: Vec<S> = Vec::new();
    data.push(words[0]);
    data.push(words[1]);
    data.push(words[2]);
    data.push(words[3]);
    let shape: [usize; 1] = [4];
    proof {
        count_of_one_dimension(4);
        assert(data@ =~= words_of::<S>(bits));
        assert(shape@ =~= seq![4usize]);
    }
    with_shape(&shape, data)
}

fn has_shape<S>(tensor: &Tensor<S>, n: usize) -> (r: bool)
    ensures
        r == (tensor@.shape == seq![n]),
{
    let shape: [usize; 1] = [n];
    assert(shape@ =~= seq![n]);
    same_shape(tensor.shape(), &shape)
}

/// The 64-bit value under `key`.
pub fn decode_u16x4_tensor<S: Single>(key: &str, tensor: &Tensor<S>) -> (r: Result<
    u64,
    AutodiffError,
>)
    ensures
        match r {
            Ok(bits) => tensor_bits(key@, tensor@) == Ok::<u64, ErrorModel>(bits),
            Err(e) => tensor_bits(key@, tensor@) == Err::<u64, _>(e@),
        },
{
    if !has_shape(tensor, 4) {
        return Err(refuse_entry(key, tell_shape("must have shape [4]", tensor.shape())));
    }
    decode_bits_u16x4(key, tensor.as_slice())
}

/// A tensor that holds the bit pattern of `value`.
pub fn encode_f64_tensor<S: Single>(value: S::Wide) -> (r: Tensor<S>)
    ensures
        r@ == bits_tensor::<S>(value.bits()),
{
    encode_u16x4_tensor(value.to_bits())
}

/// The number whose bit pattern a tensor holds.
pub open spec fn tensor_number<S: Single>(key: Seq<char>, tensor: TensorModel<S>) -> Result<
    S::Wide,
    ErrorModel,
> {
    match tensor_bits(key, tensor) {
        Ok(bits) => Ok(<S::Wide as Double>::of_bits(bits)),
        Err(e) => Err(e),
    }
}

/// The number under `key`.
pub fn decode_f64_tensor<S: Single>(key: &str, tensor: &Tensor<S>) -> (r: Result<
    S::Wide,
    AutodiffError,
>)
    ensures
        match r {
            Ok(value) => tensor_number(key@, tensor@) == Ok::<S::Wide, ErrorModel>(value),
            Err(e) => tensor_number(key@, tensor@) == Err::<S::Wide, _>(e@),
        },
{
    match decode_u16x4_tensor(key, tensor) {
        Ok(bits) => Ok(<S::Wide as Double>::from_bits(bits)),
        Err(e) => Err(e),
    }
}

fn lies_in_unit_range<R: Real>(value: R) -> (r: bool)
    ensures
        r == in_unit_range(value),
{
    value.is_finite() && R::literal(0, 0).le(value) && value.le(R::literal(1, 0))
}

/// Refuses a running power that no decay rate can have produced.
pub fn validate_pow_t_range<D: Double>(key: &str, value: D) -> (r: Result<(), AutodiffError>)
    ensures
        r is Ok <==> in_unit_range(value),
        r is Err ==> r->Err_0@ == entry_refused(key@, range_fault(value)),
{
    if lies_in_unit_range(value) {
        Ok(())
    } else {
        Err(refuse_entry(key, tell_range(value)))
    }
}

/// Refuses a running product that no momentum factors can have produced.
pub fn validate_mu_product_range<S: Single>(key: &str, value: S) -> (r: Result<(), AutodiffError>)
    ensures
        r is Ok <==> in_unit_range(value),
        r is Err ==> r->Err_0@ == entry_refused(key@, range_fault(value)),
{
    if lies_in_unit_range(value) {
        Ok(())
    } else {
        Err(refuse_entry(key, tell_range(value)))
    }
}

/// The largest step count that can be restored.
pub open spec fn largest_step_count(has_mu_product: bool) -> u64 {
    if has_mu_product {
        (u64::MAX - 2) as u64
    } else {
        (u64::MAX - 1) as u64
    }
}

/// What is said of a step count after which the next step could not be counted.
pub open spec fn headroom_fault(step_count: u64, has_mu_product: bool) -> Seq<char> {
    "`"@ + STEP_COUNT_KEY@ + "` value "@ + numeral(step_count as nat)
        + " is too large; the next `step()` call would overflow the internal `step_count` counter (maximum safely loadable value is "@
        + numeral(largest_step_count(has_mu_product) as nat) + ")"@
}

/// Refuses a step count after which the next step could not be counted.
pub fn validate_step_count_headroom(kind: &str, step_count: u64, has_mu_product: bool) -> (r:
    Result<(), AutodiffError>)
    ensures
        r is Ok <==> step_count <= largest_step_count(has_mu_product),
        r is Err ==> r->Err_0@ == state_refused(
            kind@,
            headroom_fault(step_count, has_mu_product),
        ),
{
    let largest: u64 = if has_mu_product {
        u64::MAX - 2
    } else {
        u64::MAX - 1
    };
    if step_count > largest {
        let text: String = followed_by(joined("`", STEP_COUNT_KEY), "` value ");
        let text: String = followed_by(text, long_numeral_text(step_count).as_str());
        let text: String = followed_by(
            text,
            " is too large; the next `step()` call would overflow the internal `step_count` counter (maximum safely loadable value is ",
        );
        let text: String = followed_by(text, long_numeral_text(largest).as_str());
        return Err(refuse_state(kind, followed_by(text, ")")));
    }
    Ok(())
}

/// What is said of a marker with another value than the format version.
pub open spec fn version_fault<S: Single>(kind: Seq<char>, value: S) -> Seq<char> {
    "must equal 1 (format version marker for optimizer kind `"@ + kind
        + "`; a mismatch usually means a state_dict from a different optimizer kind was passed), got "@
        + value.shown()
}

fn tell_version<S: Single>(kind: &str, value: S) -> (r: String)
    ensures
        r@ == version_fault(kind@, value),
{
    let text: String = joined("must equal 1 (format version marker for optimizer kind `", kind);
    let text: String = followed_by(
        text,
        "`; a mismatch usually means a state_dict from a different optimizer kind was passed), got ",
    );
    followed_by(text, value.show().as_str())
}

/// Why a marker is refused, if it is.
pub open spec fn marker_error<S: Single>(kind: Seq<char>, tensor: TensorModel<S>) -> Option<
    ErrorModel,
> {
    if tensor.shape != seq![1usize] {
        Some(entry_refused(marker_name(kind), shape_fault("must have shape [1]", tensor.shape)))
    } else if !tensor.data[0].same(one()) {
        Some(entry_refused(marker_name(kind), version_fault(kind, tensor.data[0])))
    } else {
        None
    }
}

/// Refuses a marker that has another shape than `[1]` or another value than the
/// format version.
pub fn validate_marker<S: Single>(kind: &str, tensor: &Tensor<S>) -> (r: Result<
    (),
    AutodiffError,
>)
    ensures
        match r {
            Ok(_) => marker_error(kind@, tensor@) is None,
            Err(e) => marker_error(kind@, tensor@) == Some(e@),
        },
{
    let key: String = marker_key(kind);
    if !has_shape(tensor, 1) {
        return Err(refuse_entry(key.as_str(), tell_shape("must have shape [1]", tensor.shape())));
    }
    let data: &[S] = tensor.as_slice();
    proof {
        count_of_one_dimension(1);
    }
    if !data[0].eq(S::literal(1, 0)) {
        return Err(refuse_entry(key.as_str(), tell_version(kind, data[0])));
    }
    Ok(())
}

/// What the saved states of one kind of optimizer consist of.
#[verifier::ext_equal]
pub struct Layout {
    pub kind: Seq<char>,
    /// The names of the buffers of a slot.
    pub buffers: Seq<Seq<char>>,
    pub has_beta1: bool,
    pub has_beta2: bool,
    pub has_mu_product: bool,
}

impl Layout {
    /// Whether a saved state with `slots` slots has an entry under `key`.
    pub open spec fn has_key(self, slots: nat, key: Seq<char>) -> bool {
        ||| key == marker_name(self.kind)
        ||| key == STEP_COUNT_KEY@
        ||| key == NUM_SLOTS_KEY@
        ||| self.has_beta1 && key == BETA1_POW_T_KEY@
        ||| self.has_beta2 && key == BETA2_POW_T_KEY@
        ||| self.has_mu_product && key == MU_PRODUCT_KEY@
        ||| self.has_slot_key(slots, key)
    }

    /// The keys of a saved state with `slots` slots.
    pub open spec fn keys(self, slots: nat) -> Set<Seq<char>> {
        Set::new(|key: Seq<char>| self.has_key(slots, key))
    }

    /// Whether `key` names a buffer of one of the first `slots` slots.
    pub open spec fn has_slot_key(self, slots: nat, key: Seq<char>) -> bool {
        exists|i: nat, j: int|
            i < slots && 0 <= j < self.buffers.len() && key == #[trigger] slot_name(
                i,
                self.buffers[j],
            )
    }
}

/// The shape and the buffers of one slot, as mathematical values.
#[verifier::ext_equal]
pub struct SlotData<S> {
    pub shape: Seq<usize>,
    pub buffers: Seq<Seq<S>>,
}

/// What an optimizer has accumulated, as a mathematical value.
#[verifier::ext_equal]
pub struct StateModel<S: Single> {
    pub step_count: u64,
    pub beta1_pow_t: Option<S::Wide>,
    pub beta2_pow_t: Option<S::Wide>,
    pub mu_product: Option<S>,
    pub slots: Seq<SlotData<S>>,
}

impl<S: Single> StateModel<S> {
    /// Whether the state has what `layout` asks for, and each buffer as many
    /// elements as its slot's shape.
    pub open spec fn fits(self, layout: Layout) -> bool {
        &&& self.beta1_pow_t is Some == layout.has_beta1
        &&& self.beta2_pow_t is Some == layout.has_beta2
        &&& self.mu_product is Some == layout.has_mu_product
        &&& forall|i: int|
            0 <= i < self.slots.len() ==> (#[trigger] self.slots[i]).buffers.len()
                == layout.buffers.len()
    }
}

/// One slot of a restored state.
pub struct DecodedSlot<S> {
    pub shape: Vec<usize>,
    /// The elements of each buffer, in the order of the buffers' names.
    pub buffers: Vec<Vec<S>>,
}

impl<S> View for DecodedSlot<S> {
    type V = SlotData<S>;

    open spec fn view(&self) -> SlotData<S> {
        SlotData { shape: self.shape@, buffers: self.buffers@.map_values(|b: Vec<S>| b@) }
    }
}

/// A restored state that has been checked and belongs to no optimizer yet.
pub struct DecodedState<S: Single> {
    pub step_count: u64,
    pub beta1_pow_t: Option<S::Wide>,
    pub beta2_pow_t: Option<S::Wide>,
    pub mu_product: Option<S>,
    pub slots: Vec<DecodedSlot<S>>,
}

impl<S: Single> View for DecodedState<S> {
    type V = StateModel<S>;

    open spec fn view(&self) -> StateModel<S> {
        StateModel {
            step_count: self.step_count,
            beta1_pow_t: self.beta1_pow_t,
            beta2_pow_t: self.beta2_pow_t,
            mu_product: self.mu_product,
            slots: self.slots@.map_values(|s: DecodedSlot<S>| s@),
        }
    }
}

/// The tensor that holds one number.
pub open spec fn number_tensor<S>(value: S) -> TensorModel<S> {
    TensorModel { shape: seq![1usize], data: seq![value] }
}

/// Whether `dict` is the saved form of `state`.
pub open spec fn encodes<S: Single>(
    dict: Map<Seq<char>, TensorModel<S>>,
    layout: Layout,
    state: StateModel<S>,
) -> bool {
    &&& state.fits(layout)
    &&& forall|key: Seq<char>| #[trigger]
        dict.dom().contains(key) <==> layout.has_key(state.slots.len(), key)
    &&& dict[marker_name(layout.kind)] == number_tensor(one::<S>())
    &&& dict[STEP_COUNT_KEY@] == bits_tensor::<S>(state.step_count)
    &&& dict[NUM_SLOTS_KEY@] == bits_tensor::<S>(state.slots.len() as u64)
    &&& layout.has_beta1 ==> dict[BETA1_POW_T_KEY@] == bits_tensor::<S>(state.beta1_pow_t->0.bits())
    &&& layout.has_beta2 ==> dict[BETA2_POW_T_KEY@] == bits_tensor::<S>(state.beta2_pow_t->0.bits())
    &&& layout.has_mu_product ==> dict[MU_PRODUCT_KEY@] == number_tensor(state.mu_product->0)
    &&& forall|i: nat, j: int|
        i < state.slots.len() && 0 <= j < layout.buffers.len()
            ==> dict[#[trigger] slot_name(i, layout.buffers[j])] == (TensorModel {
            shape: state.slots[i as int].shape,
            data: state.slots[i as int].buffers[j],
        })
}

/// The running power under `key`, where the layout has one.
pub open spec fn restored_power<S: Single>(
    dict: Map<Seq<char>, TensorModel<S>>,
    present: bool,
    key: Seq<char>,
) -> Result<Option<S::Wide>, ErrorModel> {
    if !present {
        Ok(None)
    } else {
        match tensor_number(key, dict[key]) {
            Ok(value) => if in_unit_range(value) {
                Ok(Some(value))
            } else {
                Err(entry_refused(key, range_fault(value)))
            },
            Err(e) => Err(e),
        }
    }
}

/// The running product, where the layout has one.
pub open spec fn restored_product<S: Single>(
    dict: Map<Seq<char>, TensorModel<S>>,
    kind: Seq<char>,
    present: bool,
) -> Result<Option<S>, ErrorModel> {
    if !present {
        Ok(None)
    } else if dict[MU_PRODUCT_KEY@].shape != seq![1usize] {
        Err(
            state_refused(
                kind,
                shape_fault("`mu_product` must have shape [1]", dict[MU_PRODUCT_KEY@].shape),
            ),
        )
    } else if !in_unit_range(dict[MU_PRODUCT_KEY@].data[0]) {
        Err(entry_refused(MU_PRODUCT_KEY@, range_fault(dict[MU_PRODUCT_KEY@].data[0])))
    } else {
        Ok(Some(dict[MU_PRODUCT_KEY@].data[0]))
    }
}

/// Slot `i` of a saved state.
pub open spec fn restored_slot<S: Single>(
    dict: Map<Seq<char>, TensorModel<S>>,
    layout: Layout,
    i: nat,
) -> SlotData<S> {
    SlotData {
        shape: if layout.buffers.len() == 0 {
            Seq::empty()
        } else {
            dict[slot_name(i, layout.buffers[0])].shape
        },
        buffers: Seq::new(
            layout.buffers.len(),
            |j: int| dict[slot_name(i, layout.buffers[j])].data,
        ),
    }
}

/// Whether all buffers of a slot have one shape.
pub open spec fn slot_agrees<S: Single>(
    dict: Map<Seq<char>, TensorModel<S>>,
    layout: Layout,
    i: nat,
) -> bool {
    forall|j: int|
        0 <= j < layout.buffers.len() ==> dict[#[trigger] slot_name(i, layout.buffers[j])].shape
            == restored_slot(dict, layout, i).shape
}

/// The first slot from `i` on whose buffers do not have one shape.
pub open spec fn split_slot<S: Single>(
    dict: Map<Seq<char>, TensorModel<S>>,
    layout: Layout,
    slots: nat,
    i: nat,
) -> nat
    decreases slots - i,
{
    if i >= slots || !slot_agrees(dict, layout, i) {
        i
    } else {
        split_slot(dict, layout, slots, i + 1)
    }
}

/// The first buffer of slot `i`, from buffer `j` on, with another shape than the
/// first buffer of the slot.
pub open spec fn split_buffer<S: Single>(
    dict: Map<Seq<char>, TensorModel<S>>,
    layout: Layout,
    i: nat,
    j: int,
) -> int
    decreases layout.buffers.len() - j,
{
    if j >= layout.buffers.len() || dict[slot_name(i, layout.buffers[j])].shape != restored_slot(
        dict,
        layout,
        i,
    ).shape {
        j
    } else {
        split_buffer(dict, layout, i, j + 1)
    }
}

/// What is said of buffer `key` of slot `i`, which has another shape than the first.
pub open spec fn buffer_fault(
    i: nat,
    key: Seq<char>,
    shape: Seq<usize>,
    expected: Seq<usize>,
) -> Seq<char> {
    "slot "@ + numeral(i) + " has mismatched buffer shapes: `"@ + key + "` has shape "@ + bracketed(
        shape,
    ) + ", expected "@ + bracketed(expected) + " (from an earlier buffer in the same slot)"@
}

fn tell_buffer_fault(i: usize, key: &str, shape: &[usize], expected: &[usize]) -> (r: String)
    ensures
        r@ == buffer_fault(i as nat, key@, shape@, expected@),
{
    let text: String = followed_by_count("slot ".to_owned(), i);
    let text: String = followed_by(followed_by(text, " has mismatched buffer shapes: `"), key);
    let text: String = followed_by(text, "` has shape ");
    let text: String = followed_by(text, bracketed_text(shape).as_str());
    let text: String = followed_by(text, ", expected ");
    let text: String = followed_by(text, bracketed_text(expected).as_str());
    followed_by(text, " (from an earlier buffer in the same slot)")
}

/// The error of slot `i`, whose buffers do not have one shape.
pub open spec fn slot_refused<S: Single>(
    dict: Map<Seq<char>, TensorModel<S>>,
    layout: Layout,
    i: nat,
) -> ErrorModel {
    let key = slot_name(i, layout.buffers[split_buffer(dict, layout, i, 0)]);
    state_refused(
        layout.kind,
        buffer_fault(i, key, dict[key].shape, restored_slot(dict, layout, i).shape),
    )
}

/// What is restored once the entries are known to be the expected ones.
pub open spec fn restored_entries<S: Single>(
    dict: Map<Seq<char>, TensorModel<S>>,
    layout: Layout,
    slots: nat,
) -> Result<StateModel<S>, ErrorModel> {
    if marker_error(layout.kind, dict[marker_name(layout.kind)]) is Some {
        Err(marker_error(layout.kind, dict[marker_name(layout.kind)])->0)
    } else {
        match tensor_bits(STEP_COUNT_KEY@, dict[STEP_COUNT_KEY@]) {
            Err(e) => Err(e),
            Ok(step_count) => if step_count > largest_step_count(layout.has_mu_product) {
                Err(state_refused(layout.kind, headroom_fault(step_count, layout.has_mu_product)))
            } else {
                match restored_power(dict, layout.has_beta1, BETA1_POW_T_KEY@) {
                    Err(e) => Err(e),
                    Ok(beta1_pow_t) => match restored_power(
                        dict,
                        layout.has_beta2,
                        BETA2_POW_T_KEY@,
                    ) {
                        Err(e) => Err(e),
                        Ok(beta2_pow_t) => match restored_product(dict, layout.kind, layout.has_mu_product) {
                            Err(e) => Err(e),
                            Ok(mu_product) => if !(forall|i: nat|
                                i < slots ==> #[trigger] slot_agrees(dict, layout, i)) {
                                Err(
                                    slot_refused(
                                        dict,
                                        layout,
                                        split_slot(dict, layout, slots, 0),
                                    ),
                                )
                            } else {
                                Ok(
                                    StateModel {
                                        step_count,
                                        beta1_pow_t,
                                        beta2_pow_t,
                                        mu_product,
                                        slots: Seq::new(
                                            slots,
                                            |i: int| restored_slot(dict, layout, i as nat),
                                        ),
                                    },
                                )
                            },
                        },
                    },
                }
            },
        }
    }
}

/// The error that lists keys that are wrong, in ascending order.
pub open spec fn keys_refused(kind: Seq<char>, what: &str, wrong: Set<Seq<char>>) -> ErrorModel {
    state_refused(kind, what@ + bracketed_texts(ordered(wrong)))
}

fn refuse_keys(kind: &str, what: &str, wrong: &Vec<String>) -> (r: AutodiffError)
    ensures
        r@ == state_refused(kind@, what@ + bracketed_texts(text_models(wrong@))),
{
    refuse_state(kind, joined(what, list_quoted(wrong).as_str()))
}

/// What is said of a number of slots.
pub open spec fn slots_fault(slots: nat, reason: &str) -> Seq<char> {
    "`"@ + NUM_SLOTS_KEY@ + "` value "@ + numeral(slots) + reason@
}

fn tell_slots(slots: u64, reason: &str) -> (r: String)
    ensures
        r@ == slots_fault(slots as nat, reason),
{
    let text: String = followed_by(joined("`", NUM_SLOTS_KEY), "` value ");
    followed_by(followed_by(text, long_numeral_text(slots).as_str()), reason)
}

/// What is said of a number of slots with more buffers than there are entries.
pub open spec fn entries_fault(slots: nat, entries: nat, buffers: nat) -> Seq<char> {
    slots_fault(slots, " is inconsistent with the number of provided keys (") + numeral(entries)
        + "); a valid state_dict must contain at least "@ + numeral(buffers)
        + " slot buffer keys"@
}

fn tell_entries(slots: u64, entries: usize, buffers: usize) -> (r: String)
    ensures
        r@ == entries_fault(slots as nat, entries as nat, buffers as nat),
{
    let text: String = tell_slots(slots, " is inconsistent with the number of provided keys (");
    let text: String = followed_by(
        followed_by_count(text, entries),
        "); a valid state_dict must contain at least ",
    );
    followed_by(followed_by_count(text, buffers), " slot buffer keys")
}

/// What is restored from a saved state. The number of slots comes first: it
/// bounds the keys that are looked for.
pub open spec fn restored<S: Single>(
    dict: Map<Seq<char>, TensorModel<S>>,
    layout: Layout,
) -> Result<StateModel<S>, ErrorModel> {
    if !dict.dom().contains(NUM_SLOTS_KEY@) {
        Err(state_refused(layout.kind, "missing key: `num_slots.u64_u16x4`"@))
    } else {
        match tensor_bits(NUM_SLOTS_KEY@, dict[NUM_SLOTS_KEY@]) {
            Err(e) => Err(e),
            Ok(slots) => if slots > usize::MAX {
                Err(
                    state_refused(
                        layout.kind,
                        slots_fault(slots as nat, " does not fit in `usize` on this platform"),
                    ),
                )
            } else if slots * layout.buffers.len() > usize::MAX {
                Err(
                    state_refused(
                        layout.kind,
                        slots_fault(slots as nat, " is too large (slot key count overflow)"),
                    ),
                )
            } else if slots * layout.buffers.len() > dict.dom().len() {
                Err(
                    state_refused(
                        layout.kind,
                        entries_fault(
                            slots as nat,
                            dict.dom().len(),
                            slots as nat * layout.buffers.len(),
                        ),
                    ),
                )
            } else if exists|key: Seq<char>|
                layout.has_key(slots as nat, key) && !(#[trigger] dict.dom().contains(key)) {
                Err(
                    keys_refused(
                        layout.kind,
                        "missing keys: ",
                        layout.keys(slots as nat).difference(dict.dom()),
                    ),
                )
            } else if exists|key: Seq<char>| #[trigger]
                dict.dom().contains(key) && !layout.has_key(slots as nat, key) {
                Err(
                    keys_refused(
                        layout.kind,
                        "unexpected keys: ",
                        dict.dom().difference(layout.keys(slots as nat)),
                    ),
                )
            } else {
                restored_entries(dict, layout, slots as nat)
            },
        }
    }
}

/// The layout that the arguments of [`decode_state_dict`] describe.
pub open spec fn layout_of(
    kind: &str,
    buffer_names: Seq<&str>,
    has_beta1: bool,
    has_beta2: bool,
    has_mu_product: bool,
) -> Layout {
    Layout {
        kind: kind@,
        buffers: buffer_names.map_values(|name: &str| name@),
        has_beta1,
        has_beta2,
        has_mu_product,
    }
}

impl<S> DecodedSlot<S> {
    /// Whether each buffer has as many elements as the shape asks for.
    pub open spec fn wf(self) -> bool {
        &&& countable(self.shape@)
        &&& forall|j: int|
            0 <= j < self.buffers@.len() ==> (#[trigger] self.buffers@[j])@.len() == count(
                self.shape@,
            )
    }
}

/// Whether a list holds the keys of the buffers of `slots` slots, and those of
/// the first `buffers` buffers of the next slot.
spec fn lists_slot_keys(keys: Seq<String>, layout: Layout, slots: nat, buffers: int) -> bool {
    forall|key: Seq<char>|
        layout.has_slot_key(slots, key) || (exists|j: int|
            0 <= j < buffers && key == #[trigger] slot_name(slots, layout.buffers[j]))
            <==> #[trigger] is_listed(keys, key)
}

spec fn is_listed(keys: Seq<String>, key: Seq<char>) -> bool {
    text_models(keys).contains(key)
}

proof fn pushed_key_is_listed(keys: Seq<String>, added: String)
    ensures
        forall|key: Seq<char>|
            #![trigger is_listed(keys.push(added), key)]
            is_listed(keys.push(added), key) <==> is_listed(keys, key) || key == added@,
{
    assert(text_models(keys.push(added)) =~= text_models(keys).push(added@));
    assert forall|key: Seq<char>| #![trigger is_listed(keys.push(added), key)] is_listed(
        keys.push(added),
        key,
    ) <==> is_listed(keys, key) || key == added@ by {
        pushed_contains(text_models(keys), added@, key);
    }
}

fn slot_keys(buffer_names: &[&str], slots: usize, Ghost(layout): Ghost<Layout>) -> (r: Vec<String>)
    requires
        layout.buffers == buffer_names@.map_values(|name: &str| name@),
    ensures
        forall|key: Seq<char>|
            layout.has_slot_key(slots as nat, key) <==> #[trigger] is_listed(r@, key),
{
    let mut keys: Vec<String> = Vec::new();
    let mut i: usize = 0;
    while i < slots
        invariant
            i <= slots,
            layout.buffers == buffer_names@.map_values(|name: &str| name@),
            lists_slot_keys(keys@, layout, i as nat, 0),
        decreases slots - i,
    {
        let mut j: usize = 0;
        while j < buffer_names.len()
            invariant
                j <= buffer_names@.len(),
                layout.buffers == buffer_names@.map_values(|name: &str| name@),
                lists_slot_keys(keys@, layout, i as nat, j as int),
            decreases buffer_names@.len() - j,
        {
            let key: String = slot_key(i, buffer_names[j]);
            let ghost before = keys@;
            proof {
                pushed_key_is_listed(before, key);
            }
            keys.push(key);
            assert(lists_slot_keys(keys@, layout, i as nat, j + 1)) by {
                assert forall|k: Seq<char>|
                    layout.has_slot_key(i as nat, k) || (exists|l: int|
                        0 <= l < j + 1 && k == #[trigger] slot_name(i as nat, layout.buffers[l]))
                        <==> #[trigger] is_listed(keys@, k) by {
                    assert(is_listed(before, k) || !is_listed(before, k));
                    if k == key@ {
                        assert(k == slot_name(i as nat, layout.buffers[j as int]));
                    }
                    if exists|l: int|
                        0 <= l < j + 1 && k == #[trigger] slot_name(i as nat, layout.buffers[l]) {
                        let l = choose|l: int|
                            0 <= l < j + 1 && k == #[trigger] slot_name(i as nat, layout.buffers[l]);
                        if l < j {
                            assert(is_listed(before, k));
                        }
                    }
                }
            }
            j = j + 1;
        }
        assert(lists_slot_keys(keys@, layout, (i + 1) as nat, 0)) by {
            assert forall|k: Seq<char>|
                layout.has_slot_key((i + 1) as nat, k) || (exists|l: int|
                    0 <= l < 0 && k == #[trigger] slot_name((i + 1) as nat, layout.buffers[l]))
                    <==> #[trigger] is_listed(keys@, k) by {
                if layout.has_slot_key((i + 1) as nat, k) {
                    let (a, b) = choose|a: nat, b: int|
                        a < i + 1 && 0 <= b < layout.buffers.len()
                            && k == #[trigger] slot_name(a, layout.buffers[b]);
                    if a == i {
                        assert(k == slot_name(i as nat, layout.buffers[b]));
                    } else {
                        assert(layout.has_slot_key(i as nat, k));
                    }
                }
                if exists|l: int|
                    0 <= l < j && k == #[trigger] slot_name(i as nat, layout.buffers[l]) {
                    let l = choose|l: int|
                        0 <= l < j && k == #[trigger] slot_name(i as nat, layout.buffers[l]);
                    assert(layout.has_slot_key((i + 1) as nat, k));
                }
                if layout.has_slot_key(i as nat, k) {
                    let (a, b) = choose|a: nat, b: int|
                        a < i && 0 <= b < layout.buffers.len()
                            && k == #[trigger] slot_name(a, layout.buffers[b]);
                    assert(layout.has_slot_key((i + 1) as nat, k));
                }
            }
        }
        i = i + 1;
    }
    assert forall|key: Seq<char>|
        layout.has_slot_key(slots as nat, key) <==> #[trigger] is_listed(keys@, key) by {
        if is_listed(keys@, key) {
            assert(layout.has_slot_key(i as nat, key) || exists|l: int|
                0 <= l < 0 && key == #[trigger] slot_name(i as nat, layout.buffers[l]));
        }
    }
    keys
}

/// The keys of a saved state with `slots` slots.
fn expected_keys(
    kind: &str,
    buffer_names: &[&str],
    has_beta1: bool,
    has_beta2: bool,
    has_mu_product: bool,
    slots: usize,
) -> (r: Vec<String>)
    ensures
        forall|key: Seq<char>|
            layout_of(kind, buffer_names@, has_beta1, has_beta2, has_mu_product).has_key(
                slots as nat,
                key,
            ) <==> #[trigger] is_listed(r@, key),
{
    let ghost layout = layout_of(kind, buffer_names@, has_beta1, has_beta2, has_mu_product);
    let mut keys: Vec<String> = slot_keys(buffer_names, slots, Ghost(layout));
    let key: String = marker_key(kind);
    proof {
        pushed_key_is_listed(keys@, key);
    }
    keys.push(key);
    let key: String = STEP_COUNT_KEY.to_owned();
    proof {
        pushed_key_is_listed(keys@, key);
    }
    keys.push(key);
    let key: String = NUM_SLOTS_KEY.to_owned();
    proof {
        pushed_key_is_listed(keys@, key);
    }
    keys.push(key);
    if has_beta1 {
        let key: String = BETA1_POW_T_KEY.to_owned();
        proof {
            pushed_key_is_listed(keys@, key);
        }
        keys.push(key);
    }
    if has_beta2 {
        let key: String = BETA2_POW_T_KEY.to_owned();
        proof {
            pushed_key_is_listed(keys@, key);
        }
        keys.push(key);
    }
    if has_mu_product {
        let key: String = MU_PRODUCT_KEY.to_owned();
        proof {
            pushed_key_is_listed(keys@, key);
        }
        keys.push(key);
    }
    keys
}

fn decode_power<S: Single>(state: &StateDict<S>, present: bool, key: &str) -> (r: Result<
    Option<S::Wide>,
    AutodiffError,
>)
    requires
        present ==> state@.dom().contains(key@),
    ensures
        match r {
            Ok(value) => restored_power(state@, present, key@) == Ok::<Option<S::Wide>, ErrorModel>(
                value,
            ),
            Err(e) => restored_power(state@, present, key@) == Err::<Option<S::Wide>, _>(e@),
        },
{
    if !present {
        return Ok(None);
    }
    match state.get(key) {
        None => Ok(None),
        Some(tensor) => match decode_f64_tensor(key, tensor) {
            Err(e) => Err(e),
            Ok(value) => match validate_pow_t_range(key, value) {
                Err(e) => Err(e),
                Ok(_) => Ok(Some(value)),
            },
        },
    }
}

fn decode_product<S: Single>(kind: &str, state: &StateDict<S>, present: bool) -> (r: Result<
    Option<S>,
    AutodiffError,
>)
    requires
        present ==> state@.dom().contains(MU_PRODUCT_KEY@),
    ensures
        match r {
            Ok(value) => restored_product(state@, kind@, present) == Ok::<Option<S>, ErrorModel>(value),
            Err(e) => restored_product(state@, kind@, present) == Err::<Option<S>, _>(e@),
        },
{
    if !present {
        return Ok(None);
    }
    match state.get(MU_PRODUCT_KEY) {
        None => Ok(None),
        Some(tensor) => {
            if !has_shape(tensor, 1) {
                return Err(
                    refuse_state(
                        kind,
                        tell_shape("`mu_product` must have shape [1]", tensor.shape()),
                    ),
                );
            }
            let data: &[S] = tensor.as_slice();
            proof {
                count_of_one_dimension(1);
            }
            match validate_mu_product_range(MU_PRODUCT_KEY, data[0]) {
                Err(e) => Err(e),
                Ok(_) => Ok(Some(data[0])),
            }
        },
    }
}

/// Slot `i`, or the error where its buffers have different shapes.
fn decode_slot<S: Single>(
    kind: &str,
    state: &StateDict<S>,
    buffer_names: &[&str],
    i: usize,
    Ghost(layout): Ghost<Layout>,
) -> (r: Result<DecodedSlot<S>, AutodiffError>)
    requires
        layout.kind == kind@,
        layout.buffers == buffer_names@.map_values(|name: &str| name@),
        forall|j: int|
            0 <= j < layout.buffers.len() ==> state@.dom().contains(
                #[trigger] slot_name(i as nat, layout.buffers[j]),
            ),
    ensures
        match r {
            Ok(slot) => {
                &&& slot_agrees(state@, layout, i as nat)
                &&& slot@ == restored_slot(state@, layout, i as nat)
                &&& slot.wf()
            },
            Err(e) => {
                &&& !slot_agrees(state@, layout, i as nat)
                &&& e@ == slot_refused(state@, layout, i as nat)
            },
        },
{
    let ghost expected = restored_slot(state@, layout, i as nat);
    let mut shape: Vec<usize> = Vec::new();
    let mut buffers: Vec<Vec<S>> = Vec::new();
    let mut j: usize = 0;
    while j < buffer_names.len()
        invariant
            layout.kind == kind@,
            layout.buffers == buffer_names@.map_values(|name: &str| name@),
            forall|k: int|
                0 <= k < layout.buffers.len() ==> state@.dom().contains(
                    #[trigger] slot_name(i as nat, layout.buffers[k]),
                ),
            split_buffer(state@, layout, i as nat, 0) == split_buffer(
                state@,
                layout,
                i as nat,
                j as int,
            ),
            expected == restored_slot(state@, layout, i as nat),
            j <= buffer_names@.len(),
            buffers@.len() == j,
            j > 0 ==> shape@ == expected.shape && countable(shape@),
            j == 0 ==> shape@.len() == 0,
            forall|k: int|
                0 <= k < j ==> (#[trigger] buffers@[k])@ == expected.buffers[k] && buffers@[k]@.len()
                    == count(shape@) && state@[slot_name(i as nat, layout.buffers[k])].shape
                    == shape@,
        decreases buffer_names@.len() - j,
    {
        let key: String = slot_key(i, buffer_names[j]);
        assert(key@ == slot_name(i as nat, layout.buffers[j as int]));
        match state.get(key.as_str()) {
            None => {},
            Some(tensor) => {
                if j == 0 {
                    shape = copied(tensor.shape());
                } else if !same_shape(shape.as_slice(), tensor.shape()) {
                    return Err(
                        refuse_state(
                            kind,
                            tell_buffer_fault(i, key.as_str(), tensor.shape(), shape.as_slice()),
                        ),
                    );
                }
                buffers.push(copied(tensor.as_slice()));
            },
        }
        j = j + 1;
    }
    let slot = DecodedSlot { shape, buffers };
    proof {
        if buffer_names@.len() == 0 {
            assert(slot.shape@ =~= Seq::<usize>::empty());
            assert(countable(slot.shape@));
        }
        assert(slot@.buffers =~= expected.buffers);
        assert forall|k: int| 0 <= k < layout.buffers.len() implies state@[#[trigger] slot_name(
            i as nat,
            layout.buffers[k],
        )].shape == expected.shape by {
            assert(slot.buffers@[k]@ == expected.buffers[k]);
        }
    }
    Ok(slot)
}

/// The first `slots` slots, or the error of the first whose buffers have different
/// shapes.
fn decode_slots<S: Single>(
    kind: &str,
    state: &StateDict<S>,
    buffer_names: &[&str],
    slots: usize,
    Ghost(layout): Ghost<Layout>,
) -> (r: Result<Vec<DecodedSlot<S>>, AutodiffError>)
    requires
        layout.kind == kind@,
        layout.buffers == buffer_names@.map_values(|name: &str| name@),
        forall|key: Seq<char>|
            layout.has_key(slots as nat, key) ==> #[trigger] state@.dom().contains(key),
    ensures
        match r {
            Ok(decoded) => {
                &&& forall|i: nat| i < slots ==> #[trigger] slot_agrees(state@, layout, i)
                &&& decoded@.len() == slots
                &&& forall|k: int|
                    0 <= k < slots ==> (#[trigger] decoded@[k])@ == restored_slot(
                        state@,
                        layout,
                        k as nat,
                    ) && decoded@[k].wf()
            },
            Err(e) => {
                &&& !(forall|i: nat| i < slots ==> #[trigger] slot_agrees(state@, layout, i))
                &&& e@ == slot_refused(
                    state@,
                    layout,
                    split_slot(state@, layout, slots as nat, 0),
                )
            },
        },
{
    let mut decoded: Vec<DecodedSlot<S>> = Vec::new();
    let mut i: usize = 0;
    while i < slots
        invariant
            layout.kind == kind@,
            layout.buffers == buffer_names@.map_values(|name: &str| name@),
            forall|key: Seq<char>|
                layout.has_key(slots as nat, key) ==> #[trigger] state@.dom().contains(key),
            i <= slots,
            split_slot(state@, layout, slots as nat, 0) == split_slot(
                state@,
                layout,
                slots as nat,
                i as nat,
            ),
            decoded@.len() == i,
            forall|k: int|
                0 <= k < i ==> (#[trigger] decoded@[k])@ == restored_slot(state@, layout, k as nat)
                    && decoded@[k].wf(),
            forall|k: nat| k < i ==> #[trigger] slot_agrees(state@, layout, k),
        decreases slots - i,
    {
        assert forall|j: int| 0 <= j < layout.buffers.len() implies state@.dom().contains(
            #[trigger] slot_name(i as nat, layout.buffers[j]),
        ) by {
            let key = slot_name(i as nat, layout.buffers[j]);
            assert(layout.has_slot_key(slots as nat, key));
            assert(layout.has_key(slots as nat, key));
        }
        match decode_slot(kind, state, buffer_names, i, Ghost(layout)) {
            Err(e) => {
                assert(!slot_agrees(state@, layout, i as nat));
                return Err(e);
            },
            Ok(slot) => {
                decoded.push(slot);
            },
        }
        i = i + 1;
    }
    Ok(decoded)
}

/// Checks a saved state and takes it apart. Nothing is changed where it is
/// refused.
pub fn decode_state_dict<S: Single>(
    kind: &str,
    state: &StateDict<S>,
    buffer_names: &[&str],
    has_beta1: bool,
    has_beta2: bool,
    has_mu_product: bool,
) -> (r: Result<DecodedState<S>, AutodiffError>)
    ensures
        match r {
            Ok(decoded) => {
                &&& restored(
                    state@,
                    layout_of(kind, buffer_names@, has_beta1, has_beta2, has_mu_product),
                ) == Ok::<StateModel<S>, ErrorModel>(decoded@)
                &&& forall|i: int|
                    0 <= i < decoded.slots@.len() ==> (#[trigger] decoded.slots@[i]).wf()
            },
            Err(e) => restored(
                state@,
                layout_of(kind, buffer_names@, has_beta1, has_beta2, has_mu_product),
            ) == Err::<StateModel<S>, _>(e@),
        },
{
    let ghost layout = layout_of(kind, buffer_names@, has_beta1, has_beta2, has_mu_product);
    let told: u64 = match state.get(NUM_SLOTS_KEY) {
        None => {
            return Err(refuse_state(kind, "missing key: `num_slots.u64_u16x4`".to_owned()));
        },
        Some(tensor) => match decode_u16x4_tensor(NUM_SLOTS_KEY, tensor) {
            Err(e) => {
                return Err(e);
            },
            Ok(slots) => slots,
        },
    };
    if told > usize::MAX as u64 {
        return Err(
            refuse_state(kind, tell_slots(told, " does not fit in `usize` on this platform")),
        );
    }
    let slots: usize = told as usize;
    let slot_buffers: usize = match slots.checked_mul(buffer_names.len()) {
        None => {
            return Err(
                refuse_state(kind, tell_slots(told, " is too large (slot key count overflow)")),
            );
        },
        Some(slot_buffers) => slot_buffers,
    };
    if slot_buffers > state.len() {
        return Err(refuse_state(kind, tell_entries(told, state.len(), slot_buffers)));
    }
    let expected: Vec<String> = expected_keys(
        kind,
        buffer_names,
        has_beta1,
        has_beta2,
        has_mu_product,
        slots,
    );
    let given: Vec<String> = state.keys();
    proof {
        assert forall|key: Seq<char>|
            text_models(expected@).to_set().contains(key) <==> layout.keys(slots as nat).contains(
                key,
            ) by {
            assert(is_listed(expected@, key) <==> layout.has_key(slots as nat, key));
        }
        assert(text_models(expected@).to_set() =~= layout.keys(slots as nat));
    }
    let missing: Vec<String> = texts_without(&expected, &given);
    if missing.len() > 0 {
        proof {
            let key = text_models(missing@)[0];
            assert(text_models(missing@).to_set().contains(key));
            assert(layout.has_key(slots as nat, key) && !state@.dom().contains(key));
        }
        return Err(refuse_keys(kind, "missing keys: ", &missing));
    }
    assert forall|key: Seq<char>| layout.has_key(slots as nat, key) implies #[trigger] state@.dom().contains(
        key,
    ) by {
        assert(is_listed(expected@, key));
        assert(text_models(given@).contains(key));
        assert(text_models(given@).to_set().contains(key));
    }
    let unexpected: Vec<String> = texts_without(&given, &expected);
    if unexpected.len() > 0 {
        proof {
            let key = text_models(unexpected@)[0];
            assert(text_models(unexpected@).to_set().contains(key));
            assert(state@.dom().contains(key) && !layout.has_key(slots as nat, key));
        }
        return Err(refuse_keys(kind, "unexpected keys: ", &unexpected));
    }
    assert forall|key: Seq<char>| #[trigger] state@.dom().contains(key) implies layout.has_key(
        slots as nat,
        key,
    ) by {
        assert(text_models(given@).to_set().contains(key));
        assert(text_models(given@).contains(key));
        assert(is_listed(expected@, key));
    }
    decode_entries(kind, state, buffer_names, has_beta1, has_beta2, has_mu_product, slots)
}

fn decode_entries<S: Single>(
    kind: &str,
    state: &StateDict<S>,
    buffer_names: &[&str],
    has_beta1: bool,
    has_beta2: bool,
    has_mu_product: bool,
    slots: usize,
) -> (r: Result<DecodedState<S>, AutodiffError>)
    requires
        forall|key: Seq<char>|
            layout_of(kind, buffer_names@, has_beta1, has_beta2, has_mu_product).has_key(
                slots as nat,
                key,
            ) ==> #[trigger] state@.dom().contains(key),
    ensures
        match r {
            Ok(decoded) => {
                &&& restored_entries(
                    state@,
                    layout_of(kind, buffer_names@, has_beta1, has_beta2, has_mu_product),
                    slots as nat,
                ) == Ok::<StateModel<S>, ErrorModel>(decoded@)
                &&& forall|i: int|
                    0 <= i < decoded.slots@.len() ==> (#[trigger] decoded.slots@[i]).wf()
            },
            Err(e) => restored_entries(
                state@,
                layout_of(kind, buffer_names@, has_beta1, has_beta2, has_mu_product),
                slots as nat,
            ) == Err::<StateModel<S>, _>(e@),
        },
{
    let ghost layout = layout_of(kind, buffer_names@, has_beta1, has_beta2, has_mu_product);
    assert(state@.dom().contains(marker_name(layout.kind)));
    assert(state@.dom().contains(STEP_COUNT_KEY@));
    assert(has_beta1 ==> state@.dom().contains(BETA1_POW_T_KEY@));
    assert(has_beta2 ==> state@.dom().contains(BETA2_POW_T_KEY@));
    assert(has_mu_product ==> state@.dom().contains(MU_PRODUCT_KEY@));
    let marker: String = marker_key(kind);
    match state.get(marker.as_str()) {
        None => {},
        Some(tensor) => match validate_marker(kind, tensor) {
            Err(e) => {
                return Err(e);
            },
            Ok(_) => {},
        },
    }
    let step_count: u64 = match state.get(STEP_COUNT_KEY) {
        None => 0,
        Some(tensor) => match decode_u16x4_tensor(STEP_COUNT_KEY, tensor) {
            Err(e) => {
                return Err(e);
            },
            Ok(step_count) => step_count,
        },
    };
    match validate_step_count_headroom(kind, step_count, has_mu_product) {
        Err(e) => {
            return Err(e);
        },
        Ok(_) => {},
    }
    let beta1_pow_t: Option<S::Wide> = match decode_power(state, has_beta1, BETA1_POW_T_KEY) {
        Err(e) => {
            return Err(e);
        },
        Ok(value) => value,
    };
    let beta2_pow_t: Option<S::Wide> = match decode_power(state, has_beta2, BETA2_POW_T_KEY) {
        Err(e) => {
            return Err(e);
        },
        Ok(value) => value,
    };
    let mu_product: Option<S> = match decode_product(kind, state, has_mu_product) {
        Err(e) => {
            return Err(e);
        },
        Ok(value) => value,
    };
    let decoded: Vec<DecodedSlot<S>> = match decode_slots(
        kind,
        state,
        buffer_names,
        slots,
        Ghost(layout),
    ) {
        Err(e) => {
            return Err(e);
        },
        Ok(decoded) => decoded,
    };
    let r = DecodedState { step_count, beta1_pow_t, beta2_pow_t, mu_product, slots: decoded };
    proof {
        assert(r@.slots =~= Seq::new(slots as nat, |k: int| restored_slot(state@, layout, k as nat)));
    }
    Ok(r)
}

/// Whether the running powers and the running product lie from zero to one.
pub open spec fn bounded<S: Single>(state: StateModel<S>) -> bool {
    &&& state.beta1_pow_t is Some ==> in_unit_range(state.beta1_pow_t->0)
    &&& state.beta2_pow_t is Some ==> in_unit_range(state.beta2_pow_t->0)
    &&& state.mu_product is Some ==> in_unit_range(state.mu_product->0)
}

/// Whether a dictionary is what an optimizer saves of the given state: it encodes
/// the state, whose running powers and product lie from zero to one.
pub open spec fn saves<S: Single>(
    dict: Map<Seq<char>, TensorModel<S>>,
    layout: Layout,
    state: StateModel<S>,
) -> bool {
    encodes(dict, layout, state) && bounded(state)
}

/// A saved state has at least as many entries as there are slot buffers.
proof fn slot_buffers_are_entries<S: Single>(
    dict: Map<Seq<char>, TensorModel<S>>,
    layout: Layout,
    slots: nat,
)
    requires
        dict.dom().finite(),
        layout.buffers.no_duplicates(),
        layout.buffers.len() > 0,
        forall|key: Seq<char>|
            layout.has_slot_key(slots, key) ==> #[trigger] dict.dom().contains(key),
    ensures
        slots * layout.buffers.len() <= dict.dom().len(),
{
    let m = layout.buffers.len() as int;
    let keys = Seq::new(
        slots * layout.buffers.len(),
        |k: int| slot_name((k / m) as nat, layout.buffers[k % m]),
    );
    assert forall|k: int| 0 <= k < slots * m implies 0 <= #[trigger] (k / m) < slots && 0 <= k % m
        < m by {
        assert(0 <= k / m < slots && 0 <= k % m < m) by (nonlinear_arith)
            requires
                0 <= k < slots * m,
                m > 0,
        ;
    }
    assert(keys.no_duplicates()) by {
        assert forall|a: int, b: int|
            0 <= a < keys.len() && 0 <= b < keys.len() && a != b implies keys[a] != keys[b] by {
            if keys[a] == keys[b] {
                let (p, q) = (a / m, b / m);
                assert(0 <= p < slots && 0 <= q < slots);
                slot_keys_are_distinct(
                    p as nat,
                    layout.buffers[a % m],
                    q as nat,
                    layout.buffers[b % m],
                );
                assert(a % m == b % m);
                vstd::arithmetic::div_mod::lemma_fundamental_div_mod(a, m);
                vstd::arithmetic::div_mod::lemma_fundamental_div_mod(b, m);
            }
        }
    }
    keys.unique_seq_to_set();
    assert(keys.to_set().subset_of(dict.dom())) by {
        assert forall|key: Seq<char>| keys.to_set().contains(key) implies #[trigger] dict.dom().contains(
            key,
        ) by {
            let k = keys.index_of(key);
            let p = k / m;
            assert(0 <= p < slots);
            assert(key == slot_name(p as nat, layout.buffers[k % m]));
            assert(layout.has_slot_key(slots, key));
        }
    }
    vstd::set_lib::lemma_len_subset(keys.to_set(), dict.dom());
}

/// Restoring a saved state gives the state back.
pub proof fn saved_state_is_restored<S: Single>(
    dict: Map<Seq<char>, TensorModel<S>>,
    layout: Layout,
    state: StateModel<S>,
)
    requires
        saves(dict, layout, state),
        state.step_count <= largest_step_count(layout.has_mu_product),
        layout.buffers.no_duplicates(),
        layout.buffers.len() > 0,
        dict.dom().finite(),
        dict.dom().len() <= usize::MAX,
    ensures
        restored(dict, layout) == Ok::<StateModel<S>, ErrorModel>(state),
{
    let slots = state.slots.len();
    scalar_keys_are_distinct(layout.kind);
    assert forall|key: Seq<char>| layout.has_slot_key(slots, key) implies #[trigger] dict.dom().contains(
        key,
    ) by {
        assert(layout.has_key(slots, key));
    }
    slot_buffers_are_entries(dict, layout, slots);
    assert(slots <= slots * layout.buffers.len()) by (nonlinear_arith)
        requires
            layout.buffers.len() > 0,
    ;
    assert(layout.has_key(slots, NUM_SLOTS_KEY@));
    assert(layout.has_key(slots, STEP_COUNT_KEY@));
    assert(layout.has_key(slots, marker_name(layout.kind)));
    words_round_trip::<S>(NUM_SLOTS_KEY@, slots as u64);
    words_round_trip::<S>(STEP_COUNT_KEY@, state.step_count);
    S::one_equals_one();
    if layout.has_beta1 {
        assert(layout.has_key(slots, BETA1_POW_T_KEY@));
        state.beta1_pow_t->0.of_bits_inverts_bits();
        words_round_trip::<S>(BETA1_POW_T_KEY@, state.beta1_pow_t->0.bits());
    }
    if layout.has_beta2 {
        assert(layout.has_key(slots, BETA2_POW_T_KEY@));
        state.beta2_pow_t->0.of_bits_inverts_bits();
        words_round_trip::<S>(BETA2_POW_T_KEY@, state.beta2_pow_t->0.bits());
    }
    if layout.has_mu_product {
        assert(layout.has_key(slots, MU_PRODUCT_KEY@));
    }
    assert forall|i: nat| i < slots implies #[trigger] slot_agrees(dict, layout, i) && restored_slot(
        dict,
        layout,
        i,
    ) == state.slots[i as int] by {
        assert(dict[slot_name(i, layout.buffers[0])].shape == state.slots[i as int].shape);
        assert(restored_slot(dict, layout, i).buffers =~= state.slots[i as int].buffers);
    }
    assert(Seq::new(slots, |i: int| restored_slot(dict, layout, i as nat)) =~= state.slots) by {
        assert forall|i: int| 0 <= i < slots implies restored_slot(dict, layout, i as nat)
            == state.slots[i] by {
            assert(slot_agrees(dict, layout, i as nat));
        }
    }
}

/// Whether `dict` holds the marker, the scalars, the buffers of the first
/// `slots` slots and the first `buffers` buffers of the next slot.
spec fn encodes_partly<S: Single>(
    dict: Map<Seq<char>, TensorModel<S>>,
    layout: Layout,
    state: StateModel<S>,
    slots: nat,
    buffers: int,
) -> bool {
    &&& forall|key: Seq<char>| #[trigger]
        dict.dom().contains(key) <==> layout.has_key(slots, key) || exists|j: int|
            0 <= j < buffers && key == #[trigger] slot_name(slots, layout.buffers[j])
    &&& dict[marker_name(layout.kind)] == number_tensor(one::<S>())
    &&& dict[STEP_COUNT_KEY@] == bits_tensor::<S>(state.step_count)
    &&& dict[NUM_SLOTS_KEY@] == bits_tensor::<S>(state.slots.len() as u64)
    &&& layout.has_beta1 ==> dict[BETA1_POW_T_KEY@] == bits_tensor::<S>(state.beta1_pow_t->0.bits())
    &&& layout.has_beta2 ==> dict[BETA2_POW_T_KEY@] == bits_tensor::<S>(state.beta2_pow_t->0.bits())
    &&& layout.has_mu_product ==> dict[MU_PRODUCT_KEY@] == number_tensor(state.mu_product->0)
    &&& forall|i: nat, j: int|
        (i < slots && 0 <= j < layout.buffers.len()) || (i == slots && 0 <= j < buffers)
            ==> dict[#[trigger] slot_name(i, layout.buffers[j])] == (TensorModel {
            shape: state.slots[i as int].shape,
            data: state.slots[i as int].buffers[j],
        })
}

proof fn one_more_buffer<S: Single>(
    dict: Map<Seq<char>, TensorModel<S>>,
    layout: Layout,
    state: StateModel<S>,
    slots: nat,
    buffers: int,
)
    requires
        encodes_partly(dict, layout, state, slots, buffers),
        slots < state.slots.len(),
        0 <= buffers < layout.buffers.len(),
        layout.buffers.no_duplicates(),
    ensures
        encodes_partly(
            dict.insert(
                slot_name(slots, layout.buffers[buffers]),
                TensorModel {
                    shape: state.slots[slots as int].shape,
                    data: state.slots[slots as int].buffers[buffers],
                },
            ),
            layout,
            state,
            slots,
            buffers + 1,
        ),
{
    let added = slot_name(slots, layout.buffers[buffers]);
    let tensor = TensorModel {
        shape: state.slots[slots as int].shape,
        data: state.slots[slots as int].buffers[buffers],
    };
    let more = dict.insert(added, tensor);
    slot_keys_are_not_scalar_keys(slots, layout.buffers[buffers], layout.kind);
    assert forall|key: Seq<char>| #[trigger]
        more.dom().contains(key) <==> layout.has_key(slots, key) || exists|j: int|
            0 <= j < buffers + 1 && key == #[trigger] slot_name(slots, layout.buffers[j]) by {
        if key == added {
            assert(key == slot_name(slots, layout.buffers[buffers]));
        }
        assert(dict.dom().contains(key) || !dict.dom().contains(key));
    }
    assert forall|i: nat, j: int|
        (i < slots && 0 <= j < layout.buffers.len()) || (i == slots && 0 <= j < buffers
            + 1) implies more[#[trigger] slot_name(i, layout.buffers[j])] == (TensorModel {
        shape: state.slots[i as int].shape,
        data: state.slots[i as int].buffers[j],
    }) by {
        if slot_name(i, layout.buffers[j]) == added {
            slot_keys_are_distinct(i, layout.buffers[j], slots, layout.buffers[buffers]);
        }
    }
}

proof fn one_more_slot<S: Single>(
    dict: Map<Seq<char>, TensorModel<S>>,
    layout: Layout,
    state: StateModel<S>,
    slots: nat,
)
    requires
        encodes_partly(dict, layout, state, slots, layout.buffers.len() as int),
    ensures
        encodes_partly(dict, layout, state, slots + 1, 0),
{
    assert forall|key: Seq<char>| #[trigger]
        dict.dom().contains(key) <==> layout.has_key(slots + 1, key) || exists|j: int|
            0 <= j < 0 && key == #[trigger] slot_name(slots + 1, layout.buffers[j]) by {
        if layout.has_slot_key(slots + 1, key) {
            let (a, b) = choose|a: nat, b: int|
                a < slots + 1 && 0 <= b < layout.buffers.len() && key == #[trigger] slot_name(
                    a,
                    layout.buffers[b],
                );
            if a < slots {
                assert(layout.has_slot_key(slots, key));
            }
        }
        if layout.has_slot_key(slots, key) {
            let (a, b) = choose|a: nat, b: int|
                a < slots && 0 <= b < layout.buffers.len() && key == #[trigger] slot_name(
                    a,
                    layout.buffers[b],
                );
            assert(layout.has_slot_key(slots + 1, key));
        }
        if exists|j: int|
            0 <= j < layout.buffers.len() && key == #[trigger] slot_name(
                slots,
                layout.buffers[j],
            ) {
            let j = choose|j: int|
                0 <= j < layout.buffers.len() && key == #[trigger] slot_name(
                    slots,
                    layout.buffers[j],
                );
            assert(layout.has_slot_key(slots + 1, key));
        }
    }
}

fn encode_number<S: Single>(value: S) -> (r: Tensor<S>)
    ensures
        r@ == number_tensor(value),
{
    let mut data: Vec<S> = Vec::new();
    data.push(value);
    let shape: [usize; 1] = [1];
    proof {
        count_of_one_dimension(1);
        assert(data@ =~= seq![value]);
        assert(shape@ =~= seq![1usize]);
    }
    with_shape(&shape, data)
}

fn encode_scalars<S: Single>(
    kind: &str,
    buffer_names: &[&str],
    state: &DecodedState<S>,
) -> (r: StateDict<S>)
    ensures
        encodes_partly(
            r@,
            layout_of(
                kind,
                buffer_names@,
                state.beta1_pow_t is Some,
                state.beta2_pow_t is Some,
                state.mu_product is Some,
            ),
            state@,
            0,
            0,
        ),
{
    let mut dict: StateDict<S> = StateDict::new();
    proof {
        scalar_keys_are_distinct(kind@);
    }
    dict.insert(marker_key(kind), encode_number(S::literal(1, 0)));
    dict.insert(STEP_COUNT_KEY.to_owned(), encode_u16x4_tensor(state.step_count));
    dict.insert(NUM_SLOTS_KEY.to_owned(), encode_u16x4_tensor(state.slots.len() as u64));
    match state.beta1_pow_t {
        Some(value) => dict.insert(BETA1_POW_T_KEY.to_owned(), encode_f64_tensor(value)),
        None => {},
    }
    match state.beta2_pow_t {
        Some(value) => dict.insert(BETA2_POW_T_KEY.to_owned(), encode_f64_tensor(value)),
        None => {},
    }
    match state.mu_product {
        Some(value) => dict.insert(MU_PRODUCT_KEY.to_owned(), encode_number(value)),
        None => {},
    }
    dict
}

/// The saved form of a state.
pub fn encode_state_dict<S: Single>(
    kind: &str,
    buffer_names: &[&str],
    state: &DecodedState<S>,
) -> (r: StateDict<S>)
    requires
        buffer_names@.map_values(|name: &str| name@).no_duplicates(),
        forall|i: int|
            0 <= i < state.slots@.len() ==> (#[trigger] state.slots@[i]).wf()
                && state.slots@[i].buffers@.len() == buffer_names@.len(),
    ensures
        encodes(
            r@,
            layout_of(
                kind,
                buffer_names@,
                state.beta1_pow_t is Some,
                state.beta2_pow_t is Some,
                state.mu_product is Some,
            ),
            state@,
        ),
{
    let ghost layout = layout_of(
        kind,
        buffer_names@,
        state.beta1_pow_t is Some,
        state.beta2_pow_t is Some,
        state.mu_product is Some,
    );
    let mut dict: StateDict<S> = encode_scalars(kind, buffer_names, state);
    let mut i: usize = 0;
    while i < state.slots.len()
        invariant
            layout.buffers == buffer_names@.map_values(|name: &str| name@),
            layout.buffers.no_duplicates(),
            forall|k: int|
                0 <= k < state.slots@.len() ==> (#[trigger] state.slots@[k]).wf()
                    && state.slots@[k].buffers@.len() == buffer_names@.len(),
            i <= state.slots@.len(),
            encodes_partly(dict@, layout, state@, i as nat, 0),
        decreases state.slots@.len() - i,
    {
        let mut j: usize = 0;
        while j < buffer_names.len()
            invariant
                layout.buffers == buffer_names@.map_values(|name: &str| name@),
                layout.buffers.no_duplicates(),
                i < state.slots@.len(),
                state.slots@[i as int].wf(),
                state.slots@[i as int].buffers@.len() == buffer_names@.len(),
                j <= buffer_names@.len(),
                encodes_partly(dict@, layout, state@, i as nat, j as int),
            decreases buffer_names@.len() - j,
        {
            let slot: &DecodedSlot<S> = &state.slots[i];
            let tensor: Tensor<S> = with_shape(
                slot.shape.as_slice(),
                copied(slot.buffers[j].as_slice()),
            );
            proof {
                one_more_buffer(dict@, layout, state@, i as nat, j as int);
                assert(state@.slots[i as int].buffers[j as int] == slot.buffers@[j as int]@);
            }
            dict.insert(slot_key(i, buffer_names[j]), tensor);
            j = j + 1;
        }
        proof {
            one_more_slot(dict@, layout, state@, i as nat);
        }
        i = i + 1;
    }
    dict
}

/// What is restored has what the layout asks for.
pub(crate) proof fn decoded_slots_fit<S: Single>(
    dict: Map<Seq<char>, TensorModel<S>>,
    layout: Layout,
    decoded: DecodedState<S>,
)
    requires
        restored(dict, layout) == Ok::<StateModel<S>, ErrorModel>(decoded@),
    ensures
        decoded@.fits(layout),
        forall|i: int|
            0 <= i < decoded.slots@.len() ==> (#[trigger] decoded.slots@[i]).buffers@.len()
                == layout.buffers.len(),
{
    let slots = tensor_bits(NUM_SLOTS_KEY@, dict[NUM_SLOTS_KEY@])->Ok_0 as nat;
    assert(restored_entries(dict, layout, slots) == Ok::<StateModel<S>, ErrorModel>(decoded@));
    assert(decoded@.slots == Seq::new(slots, |i: int| restored_slot(dict, layout, i as nat)));
    assert forall|i: int| 0 <= i < decoded.slots@.len() implies (
    #[trigger] decoded.slots@[i]).buffers@.len() == layout.buffers.len() by {
        assert(decoded@.slots[i] == decoded.slots@[i]@);
        assert(decoded@.slots[i] == restored_slot(dict, layout, i as nat));
        assert(decoded.slots@[i]@.buffers.len() == decoded.slots@[i].buffers@.len());
    }
}

/// An optimizer whose accumulated state can be saved and restored.
pub trait OptimizerStateDict<S: Single>: Sized {
    /// What the saved states of this optimizer consist of.
    spec fn layout() -> Layout;

    /// What the optimizer has accumulated.
    spec fn accumulated(&self) -> StateModel<S>;

    /// Whether two optimizers have the same hyperparameters.
    spec fn same_settings(&self, other: &Self) -> bool;

    /// The saved form of the current state, whose running powers and product lie
    /// from zero to one.
    fn state_dict(&self) -> (r: Result<StateDict<S>, AutodiffError>)
        ensures
            r is Ok,
            saves(r->Ok_0@, Self::layout(), self.accumulated()),
    ;

    /// Takes over a saved state, or leaves the optimizer as it is where the
    /// state is refused.
    fn load_state_dict(&mut self, state: StateDict<S>) -> (r: Result<(), AutodiffError>)
        ensures
            match r {
                Ok(_) => {
                    &&& restored(state@, Self::layout()) == Ok::<StateModel<S>, ErrorModel>(
                        final(self).accumulated(),
                    )
                    &&& final(self).same_settings(old(self))
                },
                Err(e) => {
                    &&& restored(state@, Self::layout()) == Err::<StateModel<S>, _>(e@)
                    &&& *final(self) == *old(self)
                },
            },
    ;
}

} // verus!
