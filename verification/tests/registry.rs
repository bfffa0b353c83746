//! The process context: argument retrieval and the pseudo-random
//! generator.

use neotron_sdk::Context;

#[test]
fn arguments_come_back_by_index() {
    let ctx = Context::new(vec!["a".to_string(), "b".to_string()]);
    assert_eq!(neotron_sdk::arg(&ctx, 0), Some("a"));
    assert_eq!(neotron_sdk::arg(&ctx, 1), Some("b"));
    assert_eq!(neotron_sdk::arg(&ctx, 5), None);
}

#[test]
fn no_arguments_means_every_index_is_absent() {
    let ctx = Context::new(Vec::new());
    assert_eq!(neotron_sdk::arg(&ctx, 0), None);
}

#[test]
fn generator_starts_unseeded_at_zero() {
    let mut ctx = Context::new(Vec::new());
    assert_eq!(ctx.rand_state, 0);
    assert_eq!(neotron_sdk::rand(&mut ctx), 0);
}

#[test]
fn generator_follows_the_feedback_formula() {
    let mut ctx = Context::new(Vec::new());
    neotron_sdk::srand(&mut ctx, 1);
    assert_eq!(neotron_sdk::rand(&mut ctx), 0x8000);
    assert_eq!(neotron_sdk::rand(&mut ctx), 0x4000);
    assert_eq!(neotron_sdk::rand(&mut ctx), 0x2000);
}

#[test]
fn reseeding_restarts_the_sequence() {
    let mut ctx = Context::new(Vec::new());
    neotron_sdk::srand(&mut ctx, 0xACE1);
    let first = neotron_sdk::rand(&mut ctx);
    let second = neotron_sdk::rand(&mut ctx);
    neotron_sdk::srand(&mut ctx, 0xACE1);
    assert_eq!(neotron_sdk::rand(&mut ctx), first);
    assert_eq!(neotron_sdk::rand(&mut ctx), second);
}
