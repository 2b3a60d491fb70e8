//! Choosing the next token from its logits.
//!
//! Half-precision and single-precision numbers stand for themselves as bits.
//! They are compared by their total order, which the bits determine.

use crate::error::ModelError;
use vstd::prelude::*;

verus! {

/// How a generation chooses its tokens. The temperature and `top_p` are the
/// bits of single-precision numbers.
#[derive(Clone, Debug)]
pub struct GenerationOptions {
    pub max_tokens: usize,
    pub temperature: u32,
    pub top_p: u32,
    pub top_k: usize,
    pub seed: u64,
    pub stop_token_ids: Vec<u32>,
}

impl Default for GenerationOptions {
    fn default() -> (options: GenerationOptions)
        ensures
            options.max_tokens == 32,
            options.temperature == 0,
            options.top_p == 0x3f80_0000,
            options.top_k == 0,
            options.seed == 0,
            options.stop_token_ids@ == Seq::<u32>::empty(),
    {
        GenerationOptions {
            max_tokens: 32,
            temperature: 0,
            top_p: 0x3f80_0000,
            top_k: 0,
            seed: 0,
            stop_token_ids: Vec::new(),
        }
    }
}

/// Zero, with either sign.
pub open spec fn is_zero(bits: u32) -> bool {
    bits == 0 || bits == 0x8000_0000
}

/// A finite single-precision number that is not below zero.
pub open spec fn temperature_valid(bits: u32) -> bool {
    bits < 0x7f80_0000 || is_zero(bits)
}

/// A single-precision number from zero to one.
pub open spec fn top_p_valid(bits: u32) -> bool {
    bits <= 0x3f80_0000 || is_zero(bits)
}

pub open spec fn options_error(options: GenerationOptions) -> Option<ModelError> {
    if !temperature_valid(options.temperature) {
        Some(ModelError::InvalidTemperature)
    } else if !top_p_valid(options.top_p) {
        Some(ModelError::InvalidTopP)
    } else {
        None
    }
}

pub fn validate_generation_options(options: &GenerationOptions) -> (result: Result<(), ModelError>)
    ensures
        result == match options_error(*options) {
            Some(error) => Err::<(), ModelError>(error),
            None => Ok(()),
        },
{
    if options.temperature >= 0x7f80_0000 && options.temperature != 0x8000_0000 {
        return Err(ModelError::InvalidTemperature);
    }
    if options.top_p > 0x3f80_0000 && options.top_p != 0x8000_0000 {
        return Err(ModelError::InvalidTopP);
    }
    Ok(())
}

/// How a generation goes.
#[derive(Clone, Copy, Debug, PartialEq, Eq, Structural)]
pub enum Generation {
    /// No token is wanted.
    Nothing,
    /// The greatest logit always wins.
    Greedy,
    /// Tokens are drawn.
    Sampled,
}

impl GenerationOptions {
    /// How a generation with these options goes, if they are valid.
    pub fn generation(&self) -> (result: Result<Generation, ModelError>)
        ensures
            result == match options_error(*self) {
                Some(error) => Err::<Generation, ModelError>(error),
                None => Ok(
                    if self.max_tokens == 0 {
                        Generation::Nothing
                    } else if is_zero(self.temperature) {
                        Generation::Greedy
                    } else {
                        Generation::Sampled
                    },
                ),
            },
    {
        validate_generation_options(self)?;
        if self.max_tokens == 0 {
            Ok(Generation::Nothing)
        } else if self.temperature == 0 || self.temperature == 0x8000_0000 {
            Ok(Generation::Greedy)
        } else {
            Ok(Generation::Sampled)
        }
    }
}

/// A single-precision number that is neither infinite nor no number.
pub open spec fn finite(bits: u32) -> bool {
    bits % 0x8000_0000 < 0x7f80_0000
}

/// The place of a single-precision number in the total order.
pub open spec fn rank(bits: u32) -> int {
    if bits < 0x8000_0000 {
        bits as int
    } else {
        0x7fff_ffff - bits
    }
}

/// A half-precision number that is neither infinite nor no number.
pub open spec fn finite_half(bits: u16) -> bool {
    bits % 0x8000 < 0x7c00
}

/// The place of a half-precision number in the total order.
pub open spec fn rank_half(bits: u16) -> int {
    if bits < 0x8000 {
        bits as int
    } else {
        0x7fff - bits
    }
}

/// Equal as numbers: zero has two signs.
pub open spec fn equal_half(a: u16, b: u16) -> bool {
    a == b || (a % 0x8000 == 0 && b % 0x8000 == 0)
}

fn ranking(bits: u32) -> (place: i64)
    ensures
        place == rank(bits),
{
    if bits < 0x8000_0000 {
        bits as i64
    } else {
        0x7fff_ffff - bits as i64
    }
}

fn ranking_half(bits: u16) -> (place: i32)
    ensures
        place == rank_half(bits),
{
    if bits < 0x8000 {
        bits as i32
    } else {
        0x7fff - bits as i32
    }
}

/// The greatest finite number stands here, and nowhere behind it.
pub open spec fn last_greatest(values: Seq<u32>, at: int) -> bool {
    &&& 0 <= at < values.len()
    &&& finite(values[at])
    &&& forall|i: int|
        0 <= i < values.len() && finite(#[trigger] values[i]) ==> rank(values[i]) <= rank(values[at])
    &&& forall|i: int|
        at < i < values.len() && finite(#[trigger] values[i]) ==> rank(values[i]) < rank(values[at])
}

/// The token with the greatest finite logit, the last of several.
pub fn argmax(values: &[u32]) -> (result: Result<u32, ModelError>)
    ensures
        match result {
            Ok(token) => last_greatest(values@, token as int),
            Err(error) => {
                ||| error == ModelError::NoFiniteLogit && forall|i: int|
                    0 <= i < values@.len() ==> !finite(#[trigger] values@[i])
                ||| error == ModelError::TokenIdOverflow && exists|at: int|
                    at > u32::MAX && #[trigger] last_greatest(values@, at)
            },
        },
{
    let mut best: Option<usize> = None;
    let mut i: usize = 0;
    while i < values.len()
        invariant
            i <= values@.len(),
            match best {
                Some(at) => {
                    &&& at < i
                    &&& finite(values@[at as int])
                    &&& forall|j: int|
                        0 <= j < i && finite(#[trigger] values@[j]) ==> rank(values@[j]) <= rank(
                            values@[at as int],
                        )
                    &&& forall|j: int|
                        at < j < i && finite(#[trigger] values@[j]) ==> rank(values@[j]) < rank(
                            values@[at as int],
                        )
                },
                None => forall|j: int| 0 <= j < i ==> !finite(#[trigger] values@[j]),
            },
        decreases values.len() - i,
    {
        if values[i] % 0x8000_0000 < 0x7f80_0000 {
            match best {
                Some(at) => if ranking(values[i]) >= ranking(values[at]) {
                    best = Some(i);
                },
                None => best = Some(i),
            }
        }
        i += 1;
    }
    match best {
        Some(at) => {
            assert(last_greatest(values@, at as int));
            if at as u64 <= u32::MAX as u64 {
                Ok(at as u32)
            } else {
                Err(ModelError::TokenIdOverflow)
            }
        },
        None => Err(ModelError::NoFiniteLogit),
    }
}

/// The greatest finite number stands here, and nowhere before it.
pub open spec fn first_greatest(bits: Seq<u16>, at: int) -> bool {
    &&& 0 <= at < bits.len()
    &&& finite_half(bits[at])
    &&& forall|i: int|
        0 <= i < bits.len() && finite_half(#[trigger] bits[i]) ==> rank_half(bits[i]) <= rank_half(
            bits[at],
        )
    &&& forall|i: int|
        0 <= i < at && finite_half(#[trigger] bits[i]) ==> rank_half(bits[i]) < rank_half(bits[at])
}

fn find_greatest(bits: &[u16]) -> (found: Option<usize>)
    ensures
        match found {
            Some(at) => first_greatest(bits@, at as int),
            None => forall|i: int| 0 <= i < bits@.len() ==> !finite_half(#[trigger] bits@[i]),
        },
{
    let mut best: Option<usize> = None;
    let mut i: usize = 0;
    while i < bits.len()
        invariant
            i <= bits@.len(),
            match best {
                Some(at) => {
                    &&& at < i
                    &&& finite_half(bits@[at as int])
                    &&& forall|j: int|
                        0 <= j < i && finite_half(#[trigger] bits@[j]) ==> rank_half(bits@[j])
                            <= rank_half(bits@[at as int])
                    &&& forall|j: int|
                        0 <= j < at && finite_half(#[trigger] bits@[j]) ==> rank_half(bits@[j])
                            < rank_half(bits@[at as int])
                },
                None => forall|j: int| 0 <= j < i ==> !finite_half(#[trigger] bits@[j]),
            },
        decreases bits.len() - i,
    {
        if bits[i] % 0x8000 < 0x7c00 {
            match best {
                Some(at) => if ranking_half(bits[i]) > ranking_half(bits[at]) {
                    best = Some(i);
                },
                None => best = Some(i),
            }
        }
        i += 1;
    }
    best
}

/// The finite logits with their tokens, in order.
pub open spec fn candidates_of(bits: Seq<u16>) -> Seq<(usize, u16)>
    decreases bits.len(),
{
    if bits.len() == 0 {
        Seq::empty()
    } else {
        let before = candidates_of(bits.drop_last());
        if finite_half(bits.last()) {
            before.push(((bits.len() - 1) as usize, bits.last()))
        } else {
            before
        }
    }
}

fn collect_candidates(bits: &[u16]) -> (list: Vec<(usize, u16)>)
    ensures
        list@ == candidates_of(bits@),
{
    let mut list: Vec<(usize, u16)> = Vec::new();
    let mut i: usize = 0;
    assert(bits@.take(0) =~= Seq::empty());
    while i < bits.len()
        invariant
            i <= bits@.len(),
            list@ == candidates_of(bits@.take(i as int)),
        decreases bits.len() - i,
    {
        let ghost shown = bits@.take(i + 1);
        assert(shown.drop_last() =~= bits@.take(i as int));
        assert(shown.last() == bits@[i as int]);
        if bits[i] % 0x8000 < 0x7c00 {
            list.push((i, bits[i]));
        }
        i += 1;
    }
    assert(bits@.take(i as int) =~= bits@);
    list
}

/// Each number is at least as great as those behind it.
pub open spec fn descending(list: Seq<(usize, u16)>) -> bool {
    forall|i: int, j: int|
        0 <= i <= j < list.len() ==> rank_half((#[trigger] list[j]).1) <= rank_half(
            (#[trigger] list[i]).1,
        )
}

/// How far a number is from the top of the total order, up to a constant.
fn descent(bits: u16) -> (key: i32)
    ensures
        key == -rank_half(bits),
{
    -ranking_half(bits)
}

/// `sort_unstable_by_key`: the same candidates, the greatest first. The order of
/// equal ones is left open.
#[verifier::external_body]
fn sort_descending(list: &mut Vec<(usize, u16)>)
    ensures
        final(list)@.to_multiset() == old(list)@.to_multiset(),
        descending(final(list)@),
{
    list.sort_unstable_by_key(|candidate| descent(candidate.1));
}

/// `select_nth_unstable_by_key`: the same candidates, with those before `at` at
/// least as great as the one there, and those behind it at most as great.
#[verifier::external_body]
fn select_descending(list: &mut Vec<(usize, u16)>, at: usize)
    requires
        at < old(list)@.len(),
    ensures
        final(list)@.to_multiset() == old(list)@.to_multiset(),
        forall|i: int|
            0 <= i < at ==> rank_half((#[trigger] final(list)@[i]).1) >= rank_half(
                final(list)@[at as int].1,
            ),
        forall|i: int|
            at < i < final(list)@.len() ==> rank_half((#[trigger] final(list)@[i]).1) <= rank_half(
                final(list)@[at as int].1,
            ),
{
    list.select_nth_unstable_by_key(at, |candidate| descent(candidate.1));
}

/// The best of the candidates: the greatest first, no more than `top_k` of them
/// unless that is zero, and none left out that is greater than one of them.
pub open spec fn best_of(all: Seq<(usize, u16)>, top_k: usize, best: Seq<(usize, u16)>) -> bool {
    &&& descending(best)
    &&& best.to_multiset().subset_of(all.to_multiset())
    &&& best.len() == if top_k > 0 && all.len() > top_k {
        top_k as nat
    } else {
        all.len()
    }
    &&& forall|i: int, j: int|
        0 <= i < all.len() && 0 <= j < best.len() && !best.contains(#[trigger] all[i]) ==> rank_half(
            all[i].1,
        ) <= rank_half((#[trigger] best[j]).1)
}

proof fn lemma_parts(whole: Seq<(usize, u16)>, all: Seq<(usize, u16)>, k: int)
    requires
        0 <= k <= whole.len(),
        whole.to_multiset() == all.to_multiset(),
    ensures
        whole.len() == all.len(),
        whole.take(k).to_multiset().subset_of(all.to_multiset()),
        forall|i: int|
            0 <= i < all.len() ==> whole.take(k).contains(#[trigger] all[i]) || whole.skip(
                k,
            ).contains(all[i]),
{
    let head = whole.take(k);
    let tail = whole.skip(k);
    whole.to_multiset_ensures();
    all.to_multiset_ensures();
    head.to_multiset_ensures();
    tail.to_multiset_ensures();
    assert(head + tail =~= whole);
    vstd::seq_lib::lemma_multiset_commutative(head, tail);
    assert forall|i: int| 0 <= i < all.len() implies head.contains(#[trigger] all[i])
        || tail.contains(all[i]) by {
        assert(all.to_multiset().count(all[i]) > 0) by {
            assert(all.contains(all[i]));
        }
        assert(whole.contains(all[i]));
        let j = choose|j: int| 0 <= j < whole.len() && whole[j] == all[i];
        if j < k {
            assert(head[j] == all[i]);
        } else {
            assert(tail[j - k] == all[i]);
        }
    }
}

/// The head of a list that is sorted from the greatest down is the best of it.
proof fn lemma_sorted_head(all: Seq<(usize, u16)>, sorted: Seq<(usize, u16)>, k: int, top_k: usize)
    requires
        descending(sorted),
        sorted.to_multiset() == all.to_multiset(),
        k == if top_k > 0 && all.len() > top_k {
            top_k as int
        } else {
            all.len() as int
        },
    ensures
        best_of(all, top_k, sorted.take(k)),
{
    sorted.to_multiset_ensures();
    all.to_multiset_ensures();
    lemma_parts(sorted, all, k);
    let best = sorted.take(k);
    let rest = sorted.skip(k);
    assert forall|i: int, j: int|
        0 <= i < all.len() && 0 <= j < best.len() && !best.contains(
            #[trigger] all[i],
        ) implies rank_half(all[i].1) <= rank_half((#[trigger] best[j]).1) by {
        assert(rest.contains(all[i]));
        let at = choose|at: int| 0 <= at < rest.len() && rest[at] == all[i];
        assert(sorted[at + k] == all[i]);
        assert(sorted[j] == best[j]);
    }
}

/// Whether the last of a descending list and the number that follows, or two
/// neighbours in it, are equal.
fn has_tie(top: &Vec<(usize, u16)>, next: u16) -> (answer: bool)
    ensures
        answer == (top@.len() > 0 && equal_half(top@.last().1, next) || exists|i: int|
            0 <= i < top@.len() - 1 && equal_half((#[trigger] top@[i]).1, top@[i + 1].1)),
{
    let mut i: usize = 0;
    while i < top.len()
        invariant
            i <= top@.len(),
            forall|j: int|
                0 <= j < i && j < top@.len() - 1 ==> !equal_half(
                    (#[trigger] top@[j]).1,
                    top@[j + 1].1,
                ),
            i == top@.len() && i > 0 ==> !equal_half(top@.last().1, next),
        decreases top.len() - i,
    {
        let following: u16 = if i + 1 < top.len() {
            top[i + 1].1
        } else {
            next
        };
        let value: u16 = top[i].1;
        if value == following || (value % 0x8000 == 0 && following % 0x8000 == 0) {
            assert(equal_half(top@[i as int].1, following));
            return true;
        }
        i += 1;
    }
    false
}

/// The best candidates. The few best are selected without sorting the rest,
/// unless equal ones leave open which they are or in what order they come: then
/// the order is that of a sort of all.
fn best_candidates(list: Vec<(usize, u16)>, top_k: usize) -> (best: Vec<(usize, u16)>)
    ensures
        best_of(list@, top_k, best@),
{
    let ghost all = list@;
    let mut list = list;
    if top_k > 0 && list.len() > top_k {
        let mut whole = copy_candidates(&list);
        select_descending(&mut whole, top_k);
        let ghost selected = whole@;
        proof {
            selected.to_multiset_ensures();
            all.to_multiset_ensures();
            lemma_parts(selected, all, top_k as int);
        }
        let next: u16 = whole[top_k].1;
        whole.truncate(top_k);
        assert(whole@ =~= selected.take(top_k as int));
        let ghost chosen = whole@;
        sort_descending(&mut whole);
        if has_tie(&whole, next) {
            sort_descending(&mut list);
            proof {
                lemma_sorted_head(all, list@, top_k as int, top_k);
            }
            let ghost sorted = list@;
            proof {
                sorted.to_multiset_ensures();
            }
            list.truncate(top_k);
            assert(list@ =~= sorted.take(top_k as int));
            list
        } else {
            proof {
                lemma_selected(all, selected, chosen, whole@, top_k);
            }
            whole
        }
    } else {
        sort_descending(&mut list);
        proof {
            list@.to_multiset_ensures();
            all.to_multiset_ensures();
            lemma_sorted_head(all, list@, all.len() as int, top_k);
            assert(list@.take(all.len() as int) =~= list@);
        }
        list
    }
}

/// What was selected and then sorted is the best of all.
proof fn lemma_selected(
    all: Seq<(usize, u16)>,
    selected: Seq<(usize, u16)>,
    chosen: Seq<(usize, u16)>,
    sorted: Seq<(usize, u16)>,
    top_k: usize,
)
    requires
        0 < top_k < all.len(),
        selected.to_multiset() == all.to_multiset(),
        chosen == selected.take(top_k as int),
        sorted.to_multiset() == chosen.to_multiset(),
        descending(sorted),
        forall|i: int|
            0 <= i < top_k ==> rank_half((#[trigger] selected[i]).1) >= rank_half(
                selected[top_k as int].1,
            ),
        forall|i: int|
            top_k < i < selected.len() ==> rank_half((#[trigger] selected[i]).1) <= rank_half(
                selected[top_k as int].1,
            ),
    ensures
        best_of(all, top_k, sorted),
{
    selected.to_multiset_ensures();
    all.to_multiset_ensures();
    chosen.to_multiset_ensures();
    sorted.to_multiset_ensures();
    lemma_parts(selected, all, top_k as int);
    let rest = selected.skip(top_k as int);
    assert forall|i: int, j: int|
        0 <= i < all.len() && 0 <= j < sorted.len() && !sorted.contains(
            #[trigger] all[i],
        ) implies rank_half(all[i].1) <= rank_half((#[trigger] sorted[j]).1) by {
        assert(sorted.contains(sorted[j]));
        assert(sorted.to_multiset().count(sorted[j]) > 0);
        assert(chosen.to_multiset().count(sorted[j]) > 0);
        assert(chosen.contains(sorted[j]));
        let c = choose|c: int| 0 <= c < chosen.len() && chosen[c] == sorted[j];
        assert(selected[c] == sorted[j]);
        if chosen.contains(all[i]) {
            assert(chosen.to_multiset().count(all[i]) > 0);
            assert(sorted.to_multiset().count(all[i]) > 0);
            assert(sorted.contains(all[i]));
        }
        assert(rest.contains(all[i]));
        let r = choose|r: int| 0 <= r < rest.len() && rest[r] == all[i];
        assert(selected[r + top_k] == all[i]);
    }
}

fn copy_candidates(list: &Vec<(usize, u16)>) -> (out: Vec<(usize, u16)>)
    ensures
        out@ == list@,
{
    let mut out: Vec<(usize, u16)> = Vec::new();
    let mut i: usize = 0;
    while i < list.len()
        invariant
            i <= list@.len(),
            out@ == list@.take(i as int),
        decreases list.len() - i,
    {
        out.push(list[i]);
        i += 1;
        assert(out@ =~= list@.take(i as int));
    }
    assert(list@.take(i as int) =~= list@);
    out
}

/// A generator of pseudorandom numbers.
pub struct XorShift64 {
    state: u64,
}

/// The state after one step.
pub open spec fn xor_shifted(state: u64) -> u64 {
    let a = state ^ (state << 13);
    let b = a ^ (a >> 7);
    b ^ (b << 17)
}

impl View for XorShift64 {
    type V = u64;

    closed spec fn view(&self) -> u64 {
        self.state
    }
}

impl XorShift64 {
    #[verifier::type_invariant]
    spec fn alive(self) -> bool {
        self.state != 0
    }

    pub fn new(seed: u64) -> (random: XorShift64)
        ensures
            random@ == if seed == 0 {
                0x9e37_79b9_7f4a_7c15
            } else {
                seed
            },
    {
        XorShift64 {
            state: if seed == 0 {
                0x9e37_79b9_7f4a_7c15
            } else {
                seed
            },
        }
    }

    /// The next number, which is never zero.
    pub fn next(&mut self) -> (value: u64)
        ensures
            value == xor_shifted(old(self)@),
            final(self)@ == value,
            value != 0,
    {
        proof {
            use_type_invariant(&*self);
            a_generator_never_stalls(self.state);
        }
        let mut value: u64 = self.state;
        value = value ^ (value << 13);
        value = value ^ (value >> 7);
        value = value ^ (value << 17);
        self.state = value;
        value
    }
}

/// A generator that is not at zero never comes to zero, where it would stay.
pub proof fn a_generator_never_stalls(state: u64)
    requires
        state != 0,
    ensures
        xor_shifted(state) != 0,
{
    assert(state != 0 ==> state ^ (state << 13) != 0) by (bit_vector);
    let a = state ^ (state << 13);
    assert(a != 0 ==> a ^ (a >> 7) != 0) by (bit_vector);
    let b = a ^ (a >> 7);
    assert(b != 0 ==> b ^ (b << 17) != 0) by (bit_vector);
}

/// The next token, or what it is to be drawn from.
pub enum Choice {
    Token(u32),
    /// The candidates, the greatest first, and the number that draws one: the
    /// part of 2^64 that it is, of the sum of the weights.
    Draw { candidates: Vec<(usize, u16)>, number: u64 },
}

/// Chooses tokens one after the other.
pub struct TokenSampler {
    options: GenerationOptions,
    random: XorShift64,
}

/// The candidates for a draw.
pub fn sample_candidates(bits: &[u16], top_k: usize) -> (result: Result<
    Vec<(usize, u16)>,
    ModelError,
>)
    ensures
        match result {
            Ok(best) => best_of(candidates_of(bits@), top_k, best@) && candidates_of(bits@).len()
                > 0,
            Err(error) => error == ModelError::NoFiniteLogit && candidates_of(bits@).len() == 0,
        },
{
    let list = collect_candidates(bits);
    if list.len() == 0 {
        return Err(ModelError::NoFiniteLogit);
    }
    Ok(best_candidates(list, top_k))
}

/// The token that was drawn, if one was.
pub fn drawn_token(drawn: Option<(usize, u16)>) -> (result: Result<u32, ModelError>)
    ensures
        result == match drawn {
            None => Err::<u32, ModelError>(ModelError::SamplingFailed),
            Some((index, _)) => if index <= u32::MAX {
                Ok(index as u32)
            } else {
                Err(ModelError::TokenIdOverflow)
            },
        },
{
    match drawn {
        None => Err(ModelError::SamplingFailed),
        Some((index, _)) => if index as u64 <= u32::MAX as u64 {
            Ok(index as u32)
        } else {
            Err(ModelError::TokenIdOverflow)
        },
    }
}

impl TokenSampler {
    pub closed spec fn options(self) -> GenerationOptions {
        self.options
    }

    /// The state of the generator.
    pub closed spec fn state(self) -> u64 {
        self.random@
    }

    pub fn new(options: GenerationOptions) -> (result: Result<TokenSampler, ModelError>)
        ensures
            match options_error(options) {
                Some(error) => result == Err::<TokenSampler, ModelError>(error),
                None => {
                    &&& result is Ok
                    &&& result->Ok_0.options() == options
                    &&& result->Ok_0.state() == if options.seed == 0 {
                        0x9e37_79b9_7f4a_7c15
                    } else {
                        options.seed
                    }
                },
            },
    {
        validate_generation_options(&options)?;
        let random = XorShift64::new(options.seed);
        Ok(TokenSampler { options, random })
    }

    /// The token with the greatest logit, the first of several, where the
    /// temperature is zero. Otherwise the candidates, and a number that draws
    /// one of them.
    pub fn sample(&mut self, bits: &[u16]) -> (result: Result<Choice, ModelError>)
        ensures
            final(self).options() == old(self).options(),
            result is Err <==> forall|i: int|
                0 <= i < bits@.len() ==> !finite_half(#[trigger] bits@[i]),
            match result {
                Err(error) => error == ModelError::NoFiniteLogit && final(self).state() == old(
                    self,
                ).state(),
                Ok(Choice::Token(token)) => {
                    &&& is_zero(old(self).options().temperature)
                    &&& exists|at: int| #[trigger] first_greatest(bits@, at) && token == at as u32
                    &&& final(self).state() == old(self).state()
                },
                Ok(Choice::Draw { candidates, number }) => {
                    &&& !is_zero(old(self).options().temperature)
                    &&& best_of(candidates_of(bits@), old(self).options().top_k, candidates@)
                    &&& candidates@.len() > 0
                    &&& number == xor_shifted(old(self).state())
                    &&& final(self).state() == number
                },
            },
    {
        if self.options.temperature == 0 || self.options.temperature == 0x8000_0000 {
            match find_greatest(bits) {
                Some(at) => {
                    assert(first_greatest(bits@, at as int));
                    Ok(Choice::Token(#[verifier::truncate] (at as u32)))
                },
                None => Err(ModelError::NoFiniteLogit),
            }
        } else {
            proof {
                lemma_candidates(bits@);
            }
            let candidates = sample_candidates(bits, self.options.top_k)?;
            let number: u64 = self.random.next();
            Ok(Choice::Draw { candidates, number })
        }
    }
}

/// The candidates are the finite logits, each under its own token.
proof fn lemma_candidates(bits: Seq<u16>)
    ensures
        candidates_of(bits).len() == 0 <==> forall|i: int|
            0 <= i < bits.len() ==> !finite_half(#[trigger] bits[i]),
    decreases bits.len(),
{
    if bits.len() > 0 {
        let rest = bits.drop_last();
        lemma_candidates(rest);
        assert(forall|i: int| 0 <= i < rest.len() ==> #[trigger] rest[i] == bits[i]);
        if candidates_of(bits).len() == 0 {
            assert forall|i: int| 0 <= i < bits.len() implies !finite_half(#[trigger] bits[i]) by {
                if i < rest.len() {
                    assert(!finite_half(rest[i]));
                }
            }
        } else if !finite_half(bits.last()) {
            let i = choose|i: int| 0 <= i < rest.len() && finite_half(#[trigger] rest[i]);
            assert(finite_half(bits[i]));
        } else {
            assert(finite_half(bits[bits.len() - 1]));
        }
    }
}

proof fn lemma_candidate_places(bits: Seq<u16>)
    requires
        bits.len() <= usize::MAX,
    ensures
        forall|i: int|
            0 <= i < bits.len() && finite_half(#[trigger] bits[i]) ==> candidates_of(bits).contains(
                (i as usize, bits[i]),
            ),
        forall|c: int|
            0 <= c < candidates_of(bits).len() ==> {
                let (token, value) = #[trigger] candidates_of(bits)[c];
                token < bits.len() && bits[token as int] == value && finite_half(value)
            },
    decreases bits.len(),
{
    if bits.len() > 0 {
        let rest = bits.drop_last();
        lemma_candidate_places(rest);
        let before = candidates_of(rest);
        let after = candidates_of(bits);
        assert forall|i: int| 0 <= i < bits.len() && finite_half(#[trigger] bits[i]) implies after.contains(
        (i as usize, bits[i])) by {
            if i < rest.len() {
                assert(rest[i] == bits[i]);
                assert(before.contains((i as usize, bits[i])));
                let c = choose|c: int| 0 <= c < before.len() && before[c] == (i as usize, bits[i]);
                assert(after[c] == before[c]);
            } else {
                assert(after[before.len() as int] == (i as usize, bits[i]));
            }
        }
        assert forall|c: int| 0 <= c < after.len() implies {
            let (token, value) = #[trigger] after[c];
            token < bits.len() && bits[token as int] == value && finite_half(value)
        } by {
            if c < before.len() {
                assert(after[c] == before[c]);
            }
        }
    }
}

/// A draw from one candidate is greedy: that candidate has the greatest logit.
pub proof fn top_k_one_is_greedy(bits: Seq<u16>, best: Seq<(usize, u16)>, token: int)
    requires
        bits.len() <= usize::MAX,
        best_of(candidates_of(bits), 1, best),
        0 <= token < bits.len(),
        finite_half(bits[token]),
    ensures
        best.len() == 1,
        best[0].0 < bits.len(),
        bits[best[0].0 as int] == best[0].1,
        rank_half(bits[token]) <= rank_half(bits[best[0].0 as int]),
{
    lemma_candidate_places(bits);
    let all = candidates_of(bits);
    assert(all.contains((token as usize, bits[token])));
    let i = choose|i: int| 0 <= i < all.len() && all[i] == (token as usize, bits[token]);
    assert(best.len() == 1);
    best.to_multiset_ensures();
    all.to_multiset_ensures();
    assert(best.contains(best[0]));
    assert(best.to_multiset().count(best[0]) > 0);
    assert(all.to_multiset().count(best[0]) > 0);
    assert(all.contains(best[0]));
    let c = choose|c: int| 0 <= c < all.len() && all[c] == best[0];
    if best.contains(all[i]) {
        assert(best[0] == all[i]);
    } else {
        assert(rank_half(all[i].1) <= rank_half(best[0].1));
    }
}

/// Numbers without a sign are ordered as their bits are, numbers with one the other way
/// round, and all of these come before all of those; no two numbers share a place. It is
/// so in single precision, where the sign is the highest of 32 bits, and in half
/// precision, where it is the highest of 16.
pub proof fn bits_order_numbers(a: u32, b: u32, c: u16, d: u16)
    ensures
        a <= 0x7fff_ffff && b <= 0x7fff_ffff ==> (a < b <==> rank(a) < rank(b)),
        a > 0x7fff_ffff && b > 0x7fff_ffff ==> (a < b <==> rank(b) < rank(a)),
        a > 0x7fff_ffff && b <= 0x7fff_ffff ==> rank(a) < rank(b),
        rank(a) == rank(b) ==> a == b,
        c <= 0x7fff && d <= 0x7fff ==> (c < d <==> rank_half(c) < rank_half(d)),
        c > 0x7fff && d > 0x7fff ==> (c < d <==> rank_half(d) < rank_half(c)),
        c > 0x7fff && d <= 0x7fff ==> rank_half(c) < rank_half(d),
        rank_half(c) == rank_half(d) ==> c == d,
{
}

/// A number is finite unless all bits of its exponent are set: the eight below the sign
/// in single precision, the five below it in half precision. A temperature is finite and
/// not below zero; `top_p` is at most one and not below zero.
pub proof fn only_a_full_exponent_is_not_finite(single: u32, half: u16)
    ensures
        finite(single) <==> (single / 0x80_0000) % 0x100 != 0xff,
        finite_half(half) <==> (half / 0x400) % 0x20 != 0x1f,
        temperature_valid(single) <==> finite(single) && (single / 0x8000_0000 == 0 || single
            % 0x8000_0000 == 0),
        top_p_valid(single) <==> rank(single) <= rank(0x3f80_0000) && (single / 0x8000_0000 == 0
            || single % 0x8000_0000 == 0),
        is_zero(single) <==> single % 0x8000_0000 == 0,
{
}

/// The candidates are the finite logits: each stands there once, under its own token, in
/// the order of the tokens, and nothing else does.
pub proof fn every_finite_logit_is_a_candidate_once(bits: Seq<u16>)
    requires
        bits.len() <= usize::MAX,
    ensures
        forall|i: int|
            0 <= i < bits.len() && finite_half(#[trigger] bits[i]) ==> candidates_of(bits).contains(
                (i as usize, bits[i]),
            ),
        forall|c: int|
            0 <= c < candidates_of(bits).len() ==> {
                let (token, value) = #[trigger] candidates_of(bits)[c];
                token < bits.len() && bits[token as int] == value && finite_half(value)
            },
        forall|c: int, e: int|
            0 <= c < e < candidates_of(bits).len() ==> (#[trigger] candidates_of(bits)[c]).0 < (
            #[trigger] candidates_of(bits)[e]).0,
    decreases bits.len(),
{
    lemma_candidate_places(bits);
    if bits.len() > 0 {
        let rest = bits.drop_last();
        let before = candidates_of(rest);
        let after = candidates_of(bits);
        every_finite_logit_is_a_candidate_once(rest);
        assert forall|c: int, e: int| 0 <= c < e < after.len() implies (#[trigger] after[c]).0 < (
        #[trigger] after[e]).0 by {
            assert(after[c] == before[c]);
            if e < before.len() {
                assert(after[e] == before[e]);
            }
        }
    }
}

} // verus!
