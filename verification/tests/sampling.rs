use half::f16;
use metal_infer::error::ModelError;
use metal_infer::sampling::{
    argmax, drawn_token, sample_candidates, validate_generation_options, Choice, Generation,
    GenerationOptions, TokenSampler, XorShift64,
};

fn halves(values: &[f32]) -> Vec<u16> {
    values.iter().map(|value| f16::from_f32(*value).to_bits()).collect()
}

fn singles(values: &[f32]) -> Vec<u32> {
    values.iter().map(|value| value.to_bits()).collect()
}

fn sampled(values: &[f32], options: GenerationOptions) -> Choice {
    let mut sampler = TokenSampler::new(options).expect("the options are valid");
    sampler.sample(&halves(values)).expect("sampling should succeed")
}

fn zero_temperature() {
    let choice = sampled(&[1.0, 4.0, 2.0], GenerationOptions { seed: 1, ..Default::default() });
    assert!(matches!(choice, Choice::Token(1)));
    assert_eq!(argmax(&singles(&[1.0, 4.0, 2.0])).expect("sampling should succeed"), 1);
}

fn top_k_one() {
    let options = GenerationOptions {
        temperature: 1.0f32.to_bits(),
        top_k: 1,
        seed: 1,
        ..GenerationOptions::default()
    };
    match sampled(&[1.0, 4.0, 2.0], options) {
        Choice::Draw { candidates, .. } => {
            assert_eq!(candidates.len(), 1);
            assert_eq!(drawn_token(candidates.first().copied()).expect("sampling should succeed"), 1);
        }
        Choice::Token(_) => panic!("a temperature draws"),
    }
}

#[test]
fn sampling_zero_temperature_is_greedy() {
    zero_temperature();
}

#[test]
fn qwen3_zero_temperature_is_greedy() {
    zero_temperature();
}

#[test]
fn sampling_top_k_one_is_greedy_even_with_temperature() {
    top_k_one();
}

#[test]
fn qwen3_top_k_one_is_greedy_even_with_temperature() {
    top_k_one();
}

#[test]
fn argmax_keeps_the_last_of_the_greatest_finite_logits() {
    assert_eq!(argmax(&singles(&[2.0, 2.0])).expect("argmax"), 1);
    assert_eq!(
        argmax(&singles(&[f32::NAN, -3.0, f32::INFINITY, -4.0])).expect("argmax"),
        1
    );
    assert_eq!(argmax(&singles(&[0.0, -0.0])).expect("argmax"), 0, "a sign counts");
    assert!(matches!(
        argmax(&singles(&[f32::NAN, f32::INFINITY, f32::NEG_INFINITY])),
        Err(ModelError::NoFiniteLogit)
    ));
    assert!(matches!(argmax(&[]), Err(ModelError::NoFiniteLogit)));
}

#[test]
fn a_greedy_sampler_keeps_the_first_of_the_greatest_finite_logits() {
    let mut sampler = TokenSampler::new(GenerationOptions::default()).expect("valid");
    assert!(matches!(sampler.sample(&halves(&[-1.0, 2.0, 2.0])), Ok(Choice::Token(1))));
    assert!(matches!(
        sampler.sample(&halves(&[f32::NAN, f32::INFINITY, -7.0])),
        Ok(Choice::Token(2))
    ));
    assert!(matches!(
        sampler.sample(&halves(&[f32::NAN])),
        Err(ModelError::NoFiniteLogit)
    ));
}

#[test]
fn candidates_come_from_the_greatest_down() {
    let bits = halves(&[0.5, -2.0, f32::NAN, 3.0, 1.0]);
    let order = |top_k: usize| {
        sample_candidates(&bits, top_k)
            .expect("there are candidates")
            .into_iter()
            .map(|(token, _)| token)
            .collect::<Vec<_>>()
    };
    assert_eq!(order(0), vec![3, 4, 0, 1]);
    assert_eq!(order(2), vec![3, 4]);
    assert_eq!(order(9), vec![3, 4, 0, 1]);
    assert!(matches!(
        sample_candidates(&halves(&[f32::INFINITY]), 0),
        Err(ModelError::NoFiniteLogit)
    ));
}

#[test]
fn equal_candidates_fill_the_places_that_are_left() {
    let bits = halves(&[1.0, 5.0, 1.0, 1.0]);
    let best = sample_candidates(&bits, 2).expect("there are candidates");
    assert_eq!(best.len(), 2);
    assert_eq!(best[0].0, 1);
    assert_eq!(best[1].1, bits[0]);
    assert_ne!(best[1].0, 1);
}

#[test]
fn a_draw_takes_the_next_random_number() {
    let options = GenerationOptions {
        temperature: 0.5f32.to_bits(),
        seed: 7,
        ..GenerationOptions::default()
    };
    let mut random = XorShift64::new(7);
    let mut sampler = TokenSampler::new(options).expect("valid");
    for _ in 0..3 {
        match sampler.sample(&halves(&[1.0, 2.0])).expect("sampled") {
            Choice::Draw { number, .. } => assert_eq!(number, random.next()),
            Choice::Token(_) => panic!("a temperature draws"),
        }
    }
}

#[test]
fn the_generator_is_the_known_one() {
    let mut random = XorShift64::new(1);
    assert_eq!(random.next(), 0x4082_2041);
    let mut seeded = XorShift64::new(0);
    let mut golden = XorShift64::new(0x9e37_79b9_7f4a_7c15);
    assert_eq!(seeded.next(), golden.next(), "zero stands for a fixed seed");
    for _ in 0..1000 {
        assert_ne!(seeded.next(), 0);
    }
}

#[test]
fn options_are_checked() {
    let with = |temperature: f32, top_p: f32| GenerationOptions {
        temperature: temperature.to_bits(),
        top_p: top_p.to_bits(),
        ..GenerationOptions::default()
    };
    assert!(validate_generation_options(&with(0.0, 1.0)).is_ok());
    assert!(validate_generation_options(&with(-0.0, -0.0)).is_ok());
    assert!(validate_generation_options(&with(f32::MAX, 0.5)).is_ok());
    for temperature in [-1.0, f32::NAN, f32::INFINITY, f32::NEG_INFINITY] {
        assert!(matches!(
            validate_generation_options(&with(temperature, 1.0)),
            Err(ModelError::InvalidTemperature)
        ));
    }
    for top_p in [-0.5, 1.5, f32::NAN, f32::INFINITY] {
        assert!(matches!(
            validate_generation_options(&with(0.0, top_p)),
            Err(ModelError::InvalidTopP)
        ));
    }
    assert!(matches!(TokenSampler::new(with(-1.0, 1.0)), Err(ModelError::InvalidTemperature)));
}

#[test]
fn the_options_decide_how_a_generation_goes() {
    let options = GenerationOptions::default();
    assert_eq!(options.max_tokens, 32);
    assert_eq!(options.top_p, 1.0f32.to_bits());
    assert!(matches!(options.generation(), Ok(Generation::Greedy)));
    let none = GenerationOptions { max_tokens: 0, ..GenerationOptions::default() };
    assert!(matches!(none.generation(), Ok(Generation::Nothing)));
    let warm = GenerationOptions { temperature: 1.0f32.to_bits(), ..GenerationOptions::default() };
    assert!(matches!(warm.generation(), Ok(Generation::Sampled)));
}

#[test]
fn a_draw_that_fails_is_named() {
    assert!(matches!(drawn_token(None), Err(ModelError::SamplingFailed)));
    assert!(matches!(
        drawn_token(Some((usize::MAX, 0))),
        Err(ModelError::TokenIdOverflow)
    ));
    assert_eq!(drawn_token(Some((3, 0))).expect("drawn"), 3);
}
