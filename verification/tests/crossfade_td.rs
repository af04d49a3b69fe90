use convolution::crossfade_convolver_td::{CrossfadeConvolverTimeDomain, Placement};
use convolution::crossfader::{FadingState, Mix, Target};
use convolution::fft_convolver::ConfigError;

#[test]
fn td_starts_on_stream_a() {
    let mut convolver = CrossfadeConvolverTimeDomain::new(1024, 256, 8, 0i32);
    assert!(!convolver.is_crossfading());
    assert!(!convolver.is_response_pending());
    assert_eq!(convolver.capacity(), 1024);
    assert_eq!(convolver.fading_state(), FadingState::Reached(Target::A));
    let (install, mixes) = convolver.process(3);
    assert_eq!(install, None);
    assert_eq!(mixes, vec![Mix::A, Mix::A, Mix::A]);
}

#[test]
fn td_update_installs_into_the_idle_convolver_and_fades() {
    // hold = min(4, 1024) = 4 samples, fade = 2 samples
    let mut convolver = CrossfadeConvolverTimeDomain::new(1024, 4, 2, 0i32);
    assert_eq!(convolver.update(&vec![3; 1024]), Placement::Install(Target::B));
    assert!(convolver.is_crossfading());
    let (install, mixes) = convolver.process(7);
    assert_eq!(install, None);
    assert_eq!(
        mixes,
        vec![
            Mix::A,
            Mix::A,
            Mix::A,
            Mix::A,
            Mix::Blend { numerator: 1, denominator: 2 },
            Mix::B,
            Mix::B
        ]
    );
    assert!(!convolver.is_crossfading());
    assert_eq!(convolver.update(&vec![4; 10]), Placement::Install(Target::A));
}

#[test]
fn td_hold_is_the_smaller_of_buffer_and_capacity() {
    let mut convolver = CrossfadeConvolverTimeDomain::new(2, 256, 1, 0i32);
    convolver.update(&vec![3; 2]);
    assert_eq!(convolver.process(4).1, vec![Mix::A, Mix::A, Mix::B, Mix::B]);
    let mut convolver = CrossfadeConvolverTimeDomain::init(3, 2, 100, 0i32).unwrap();
    assert_eq!(convolver.capacity(), 100);
    convolver.update(&vec![4; 3]);
    // hold = min(2, 3), fade = 3
    assert_eq!(
        convolver.process(5).1,
        vec![
            Mix::A,
            Mix::A,
            Mix::Blend { numerator: 1, denominator: 3 },
            Mix::Blend { numerator: 2, denominator: 3 },
            Mix::B
        ]
    );
}

#[test]
fn td_keeps_one_pending_response_and_installs_it_after_the_fade() {
    let mut convolver = CrossfadeConvolverTimeDomain::new(1024, 2, 2, 0i32);
    assert_eq!(convolver.update(&vec![3; 1024]), Placement::Install(Target::B));
    assert_eq!(convolver.update(&vec![7; 1000]), Placement::Pending);
    assert_eq!(convolver.update(&vec![5; 900]), Placement::Pending);
    assert!(convolver.is_response_pending());
    // the fade is still in progress at the start of this call
    let (install, mixes) = convolver.process(4);
    assert_eq!(install, None);
    assert_eq!(mixes.last(), Some(&Mix::B));
    assert!(!convolver.is_crossfading());
    // the next call installs the pending response into convolver A and fades back
    assert_eq!(convolver.begin_block(), Some(Target::A));
    assert!(!convolver.is_response_pending());
    assert!(convolver.is_crossfading());
    assert_eq!(convolver.mix(), Mix::B);
    assert_eq!(convolver.mix(), Mix::B);
    assert_eq!(convolver.mix(), Mix::Blend { numerator: 1, denominator: 2 });
    assert_eq!(convolver.mix(), Mix::A);
    assert_eq!(convolver.begin_block(), None);
}

#[test]
fn td_pending_slot_holds_the_latest_response_padded() {
    let mut convolver = CrossfadeConvolverTimeDomain::new(4, 2, 2, 0i32);
    assert_eq!(convolver.stored_response(), [0, 0, 0, 0]);
    // installed at once: nothing is kept
    assert_eq!(convolver.update(&[1, 1, 1, 1]), Placement::Install(Target::B));
    assert_eq!(convolver.stored_response(), [0, 0, 0, 0]);
    assert_eq!(convolver.update(&[2, 2, 2, 2]), Placement::Pending);
    assert_eq!(convolver.stored_response(), [2, 2, 2, 2]);
    assert_eq!(convolver.update(&[3]), Placement::Pending);
    assert_eq!(convolver.stored_response(), [3, 0, 0, 0]);
    convolver.process(4);
    assert_eq!(convolver.begin_block(), Some(Target::A));
    assert_eq!(convolver.stored_response(), [3, 0, 0, 0]);
}

#[test]
fn td_init_checks_the_configuration() {
    assert_eq!(
        CrossfadeConvolverTimeDomain::init(101, 256, 100, 0i32).err(),
        Some(ConfigError::ResponseTooLong)
    );
    assert_eq!(
        CrossfadeConvolverTimeDomain::init(100, 0, 100, 0i32).err(),
        Some(ConfigError::ZeroBlockSize)
    );
    assert!(CrossfadeConvolverTimeDomain::init(100, 256, 100, 0i32).is_ok());
}

#[test]
fn td_init_takes_an_empty_response() {
    // fades over one sample, with no hold
    let mut convolver = CrossfadeConvolverTimeDomain::init(0, 256, 100, 0i32).unwrap();
    assert_eq!(convolver.capacity(), 100);
    assert_eq!(convolver.update(&[1, 2, 3]), Placement::Install(Target::B));
    assert_eq!(convolver.process(2).1, vec![Mix::B, Mix::B]);
    assert!(!convolver.is_crossfading());
}
