use convolution::faded_stepwise_update_convolver::{
    weight, FadeStep, FadedSlot, FadedStepwiseUpdateConvolver, ImpulseResponse, Weight,
};
use convolution::fft_convolver::ConfigError;

#[test]
fn impulse_response_is_padded_with_silence() {
    let empty = ImpulseResponse::new(5, 0i32);
    assert_eq!((empty.capacity(), empty.effective_length()), (5, 0));
    assert_eq!(empty.samples(), [0, 0, 0, 0, 0]);
    let mut ir = ImpulseResponse::init(&[1, 2], 5, 0i32);
    assert_eq!((ir.capacity(), ir.effective_length()), (5, 2));
    assert_eq!(ir.samples(), [1, 2, 0, 0, 0]);
    ir.update(&[3, 4, 5, 6, 7]);
    assert_eq!((ir.capacity(), ir.effective_length()), (5, 5));
    assert_eq!(ir.samples(), [3, 4, 5, 6, 7]);
    // a shorter response leaves nothing of the longer one behind
    ir.update(&[8]);
    assert_eq!((ir.capacity(), ir.effective_length()), (5, 1));
    assert_eq!(ir.samples(), [8, 0, 0, 0, 0]);
    ir.update(&[]);
    assert_eq!((ir.capacity(), ir.effective_length()), (5, 0));
    assert_eq!(ir.samples(), [0, 0, 0, 0, 0]);
    let silent = ImpulseResponse::new(3, 9u8);
    assert_eq!(silent.samples(), [9, 9, 9]);
}

#[test]
fn weight_is_the_clamped_share_of_the_steps() {
    let w = |numerator, denominator| Weight { numerator, denominator };
    // counter + 1 - segment over fade_steps, kept between 0 and 1
    assert_eq!(weight(0, 4, 0), w(1, 4));
    assert_eq!(weight(0, 4, 1), w(0, 4));
    assert_eq!(weight(0, 4, 2), w(0, 4));
    assert_eq!(weight(2, 4, 0), w(3, 4));
    assert_eq!(weight(3, 4, 0), w(4, 4));
    assert_eq!(weight(9, 4, 0), w(4, 4));
    assert_eq!(weight(9, 4, 7), w(3, 4));
    assert_eq!(weight(usize::MAX, 4, 0), w(4, 4));
    assert_eq!(weight(0, 4, usize::MAX), w(0, 4));
    // no step: each segment moves at once when its turn comes, as with one step
    assert_eq!(weight(0, 0, 0), w(1, 1));
    assert_eq!(weight(0, 0, 1), w(0, 1));
    assert_eq!(weight(0, 0, 5), w(0, 1));
    assert_eq!(weight(4, 0, 5), w(0, 1));
    assert_eq!(weight(5, 0, 5), w(1, 1));
    assert_eq!(weight(9, 0, 5), w(1, 1));
    for counter in 0..8 {
        for segment in 0..8 {
            assert_eq!(weight(counter, 0, segment), weight(counter, 1, segment));
        }
    }
}

#[test]
fn weight_depends_on_the_age_of_the_input_alone() {
    for fade_steps in 0..6usize {
        for counter in 0..12usize {
            for segment in 0..=counter {
                assert_eq!(
                    weight(counter, fade_steps, segment),
                    weight(counter - segment, fade_steps, 0)
                );
            }
        }
    }
}

#[test]
fn faded_new_checks_the_configuration() {
    assert_eq!(
        FadedStepwiseUpdateConvolver::new(&vec![1u8; 1025], 1024, 256, 4096, 0).err(),
        Some(ConfigError::ResponseTooLong)
    );
    assert_eq!(
        FadedStepwiseUpdateConvolver::new(&vec![1u8; 10], 1024, 0, 4096, 0).err(),
        Some(ConfigError::ZeroBlockSize)
    );
    let convolver = FadedStepwiseUpdateConvolver::new(&vec![1u8; 10], 1024, 200, 100, 0).unwrap();
    // the transition is no shorter than the capacity
    assert_eq!(convolver.transition_samples(), 1024);
    assert_eq!(convolver.convolver().block_size(), 256);
    let convolver = FadedStepwiseUpdateConvolver::init(&vec![1u8; 10], 200, 1024, 0).unwrap();
    assert_eq!(convolver.transition_samples(), 1024);
    let convolver = FadedStepwiseUpdateConvolver::new(&vec![1u8; 10], 1024, 200, 5000, 0).unwrap();
    assert_eq!(convolver.transition_samples(), 5000);
    assert!(!convolver.is_switching());
}

#[test]
fn fade_steps_are_the_blocks_left_after_the_longer_response() {
    // (3 * 32 * 256 - 32 * 256) / 256 = 64
    let mut convolver =
        FadedStepwiseUpdateConvolver::new(
            &vec![1u8; 32 * 256],
            32 * 256,
            256,
            3 * 32 * 256,
            0,
        ).unwrap();
    assert_eq!(convolver.update(&vec![2u8; 32 * 256]), FadedSlot::Next);
    assert_eq!(convolver.fade_steps(), 64);

    // the longer one is the current response: (4096 - 1000) / 256 = 12
    let mut convolver = FadedStepwiseUpdateConvolver::new(
        &vec![1u8; 1000],
        1024,
        256,
        4096,
        0,
    ).unwrap();
    convolver.update(&vec![2u8; 10]);
    assert_eq!(convolver.fade_steps(), 12);

    // the longer one is the next response: (4096 - 1024) / 256 = 12, (4096 - 1023) / 256 = 12
    let mut convolver = FadedStepwiseUpdateConvolver::new(
        &vec![1u8; 10],
        1024,
        256,
        4096,
        0,
    ).unwrap();
    convolver.update(&vec![2u8; 1024]);
    assert_eq!(convolver.fade_steps(), 12);
    let mut convolver = FadedStepwiseUpdateConvolver::new(
        &vec![1u8; 10],
        1024,
        256,
        4095,
        0,
    ).unwrap();
    convolver.update(&vec![2u8; 1024]);
    assert_eq!(convolver.fade_steps(), 11);
}

#[test]
fn transition_runs_through_its_blocks() {
    // 4 segments, (2048 - 1024) / 256 = 4 steps: 4 + 4 - 1 = 7 blocks
    let mut convolver = FadedStepwiseUpdateConvolver::new(
        &vec![1u8; 1024],
        1024,
        256,
        2048,
        0,
    ).unwrap();
    let idle = FadeStep {
        promoted: false,
        switching: false,
        counter: 0,
        fade_steps: 0,
        transform: None,
        completes: false,
    };
    assert_eq!(convolver.begin_block(), idle);
    assert_eq!(convolver.update(&vec![2u8; 1024]), FadedSlot::Next);
    assert_eq!(convolver.fade_steps(), 4);
    for counter in 0..7 {
        let step = convolver.begin_block();
        assert_eq!(
            step,
            FadeStep {
                promoted: false,
                switching: true,
                counter,
                fade_steps: 4,
                transform: if counter < 4 { Some(counter) } else { None },
                completes: counter == 6,
            }
        );
        // the transition is over exactly when every segment has the weight 1
        let all_new = (0..4).all(|i| {
            let w = weight(step.counter, step.fade_steps, i);
            w.numerator == w.denominator
        });
        assert_eq!(step.completes, all_new);
    }
    assert!(!convolver.is_switching());
    assert_eq!(convolver.begin_block(), idle);
}

#[test]
fn transition_without_steps_moves_one_segment_per_block() {
    // through `init` the transition is as long as the capacity: no step is left
    let mut convolver = FadedStepwiseUpdateConvolver::init(&vec![1u8; 1024], 256, 1024, 0).unwrap();
    convolver.update(&vec![2u8; 1024]);
    assert_eq!(convolver.fade_steps(), 0);
    let mut transformed = Vec::new();
    for counter in 0..4 {
        let step = convolver.begin_block();
        assert!(step.switching);
        assert_eq!(step.counter, counter);
        assert_eq!(step.transform, Some(counter));
        assert_eq!(step.completes, counter == 3);
        transformed.push(counter);
        for segment in 0..4 {
            let w = weight(step.counter, step.fade_steps, segment);
            // no segment is mixed in before it was transformed
            assert_eq!(w.numerator > 0, transformed.contains(&segment));
            if step.completes {
                assert_eq!(w.numerator, w.denominator);
            }
        }
    }
    assert!(!convolver.is_switching());
    assert_eq!(convolver.current_response().samples(), vec![2u8; 1024]);
}

#[test]
fn no_segment_is_mixed_in_before_it_was_transformed() {
    for (capacity, transition) in [(1024, 1024), (1024, 1300), (1024, 4096), (256, 256)] {
        let mut convolver =
            FadedStepwiseUpdateConvolver::new(&vec![1u8; capacity], capacity, 256, transition, 0)
                .unwrap();
        convolver.update(&vec![2u8; capacity]);
        let active = convolver.convolver().active_seg_count();
        let mut transformed = vec![false; active];
        while convolver.is_switching() {
            let step = convolver.begin_block();
            if let Some(segment) = step.transform {
                transformed[segment] = true;
            }
            for segment in 0..active {
                let w = weight(step.counter, step.fade_steps, segment);
                assert!(w.numerator == 0 || transformed[segment]);
                if step.completes {
                    assert_eq!(w.numerator, w.denominator);
                }
            }
        }
        assert!(transformed.iter().all(|&done| done));
    }
}

#[test]
fn faded_keeps_one_queued_response() {
    let mut convolver = FadedStepwiseUpdateConvolver::new(
        &vec![1u8; 256],
        256,
        256,
        512,
        0,
    ).unwrap();
    assert_eq!(convolver.update(&vec![2u8; 256]), FadedSlot::Next);
    assert_eq!(convolver.fade_steps(), 1);
    assert_eq!(convolver.update(&vec![2u8; 100]), FadedSlot::Queued);
    assert_eq!(convolver.update(&vec![2u8; 50]), FadedSlot::Queued);
    assert!(convolver.is_response_pending());
    // one segment, one step: over with the first block
    let step = convolver.begin_block();
    assert!(step.completes && !step.promoted);
    assert!(!convolver.is_switching());
    assert!(convolver.is_response_pending());
    // the next block promotes the queued response: (512 - 256) / 256 = 1 step again
    let step = convolver.begin_block();
    assert!(step.promoted && step.switching && step.completes);
    assert_eq!(step.counter, 0);
    assert!(!convolver.is_response_pending());
    assert!(!convolver.is_switching());
}

#[test]
fn block_starts_do_not_depend_on_how_the_input_is_cut() {
    let run = |outer: usize| {
        let mut convolver = FadedStepwiseUpdateConvolver::new(
            &vec![1u8; 1024],
            1024,
            256,
            2048,
            0,
        ).unwrap();
        let mut steps = Vec::new();
        let mut samples = 0;
        let total = 256 * 16;
        let mut produced = 0;
        while produced < total {
            if produced == 256 * 2 {
                convolver.update(&vec![2u8; 1024]);
            }
            for item in convolver.process(outer) {
                if let Some(step) = item.step {
                    steps.push((samples, step));
                }
                samples += item.chunk.len;
            }
            produced += outer;
        }
        assert_eq!(samples, total);
        (
            steps,
            convolver.convolver().current(),
            convolver.convolver().input_buffer_fill(),
            convolver.is_switching(),
        )
    };
    let reference = run(256);
    assert_eq!(reference.0.len(), 16);
    assert_eq!(reference.0.iter().filter(|(_, step)| step.switching).count(), 7);
    for outer in [1, 32, 64, 128, 512] {
        assert_eq!(run(outer), reference);
    }
}

#[test]
fn faded_advance_starts_a_block_only_at_its_first_chunk() {
    let mut convolver = FadedStepwiseUpdateConvolver::new(
        &vec![1u8; 512],
        512,
        256,
        1024,
        0,
    ).unwrap();
    convolver.update(&vec![2u8; 512]);
    let first = convolver.advance(100).unwrap();
    assert!(first.step.is_some());
    assert_eq!((first.chunk.len, first.chunk.buffer_pos), (100, 0));
    let second = convolver.advance(400).unwrap();
    assert!(second.step.is_none());
    assert_eq!((second.chunk.len, second.chunk.buffer_pos), (156, 100));
    assert!(second.chunk.completes_block);
    let third = convolver.advance(244).unwrap();
    assert_eq!(third.step.map(|step| step.counter), Some(1));
    assert_eq!(convolver.advance(0), None);
}

#[test]
fn faded_with_no_segment_is_silent() {
    let mut convolver = FadedStepwiseUpdateConvolver::new(&vec![1u8; 0], 0, 256, 0, 0).unwrap();
    assert_eq!(convolver.update(&vec![2u8; 0]), FadedSlot::Next);
    assert!(convolver.process(100).is_empty());
    assert_eq!(convolver.advance(100), None);
    let step = convolver.begin_block();
    assert!(step.completes);
    assert!(!convolver.is_switching());
}

#[test]
fn faded_responses_change_places_when_the_transition_is_over() {
    // 2 segments of 2 samples, (6 - 4) / 2 = 1 step: 1 + 2 - 1 = 2 blocks
    let mut convolver = FadedStepwiseUpdateConvolver::new(&[1, 1, 1, 1], 4, 2, 6, 0i32).unwrap();
    assert_eq!(convolver.current_response().samples(), [1, 1, 1, 1]);
    assert_eq!(convolver.next_response().samples(), [0, 0, 0, 0]);
    assert_eq!(convolver.update(&[2, 2, 2]), FadedSlot::Next);
    assert_eq!(convolver.next_response().samples(), [2, 2, 2, 0]);
    assert_eq!(convolver.next_response().effective_length(), 3);
    assert_eq!(convolver.update(&[3]), FadedSlot::Queued);
    assert_eq!(convolver.update(&[4, 4]), FadedSlot::Queued);
    assert_eq!(convolver.queued_response().samples(), [4, 4, 0, 0]);

    let step = convolver.begin_block();
    assert!(!step.completes);
    assert_eq!(step.transform, Some(0));
    assert_eq!(convolver.transform_source(&step).samples(), [2, 2, 2, 0]);
    let step = convolver.begin_block();
    assert!(step.completes);
    assert_eq!(step.transform, Some(1));
    // the step still reads the response that it fades to, which is the current one now
    assert_eq!(convolver.transform_source(&step).samples(), [2, 2, 2, 0]);
    assert_eq!(convolver.current_response().samples(), [2, 2, 2, 0]);
    assert_eq!(convolver.next_response().samples(), [1, 1, 1, 1]);

    // the queued response is promoted: (6 - 3) / 2 = 1 step
    let step = convolver.begin_block();
    assert!(step.promoted && !step.completes);
    assert_eq!(step.fade_steps, 1);
    assert_eq!(convolver.transform_source(&step).samples(), [4, 4, 0, 0]);
    assert_eq!(convolver.next_response().samples(), [4, 4, 0, 0]);
    assert_eq!(convolver.current_response().samples(), [2, 2, 2, 0]);
}
