use convolution::crossfade_convolver_fd::{
    is_real_bin, mirrored_bin, neighbour_bins, BlockOutput, CrossfadeConvolverFrequencyDomain,
    MirroredBin,
};
use convolution::crossfade_convolver_td::Placement;
use convolution::crossfader::{FadingState, Target};
use convolution::fft_convolver::ConfigError;

#[test]
fn bins_outside_the_stored_half_are_mirrored() {
    let bin = |index, conjugated| MirroredBin { index, conjugated };
    // 5 stored bins of a spectrum of 8 samples
    assert_eq!(mirrored_bin(0, 5), bin(0, false));
    assert_eq!(mirrored_bin(4, 5), bin(4, false));
    assert_eq!(mirrored_bin(-1, 5), bin(1, true));
    assert_eq!(mirrored_bin(-4, 5), bin(4, true));
    assert_eq!(mirrored_bin(5, 5), bin(3, true));
    assert_eq!(mirrored_bin(8, 5), bin(0, true));
    assert_eq!(neighbour_bins(0, 5), (bin(1, true), bin(1, false)));
    assert_eq!(neighbour_bins(2, 5), (bin(1, false), bin(3, false)));
    assert_eq!(neighbour_bins(4, 5), (bin(3, false), bin(3, true)));
    assert_eq!(neighbour_bins(1, 2), (bin(0, false), bin(0, true)));
}

#[test]
fn first_and_last_bin_are_real() {
    assert!(is_real_bin(0, 513));
    assert!(is_real_bin(512, 513));
    assert!(!is_real_bin(1, 513));
    assert!(!is_real_bin(511, 513));
    assert!(is_real_bin(0, 1));
}

#[test]
fn fd_init_checks_the_configuration() {
    assert_eq!(
        CrossfadeConvolverFrequencyDomain::init(1025, 512, 1024, 0i32).err(),
        Some(ConfigError::ResponseTooLong)
    );
    assert_eq!(
        CrossfadeConvolverFrequencyDomain::init(1024, 0, 1024, 0i32).err(),
        Some(ConfigError::ZeroBlockSize)
    );
    let convolver = CrossfadeConvolverFrequencyDomain::init(10, 500, 2048, 0i32).unwrap();
    assert_eq!(convolver.convolver().block_size(), 512);
    assert_eq!(convolver.convolver().active_seg_count(), 4);
    assert_eq!(convolver.fading_state(), FadingState::Reached(Target::A));
    assert!(!convolver.is_crossfading());
}

fn whole_block(
    convolver: &mut CrossfadeConvolverFrequencyDomain<i32>,
) -> (Option<Target>, usize, BlockOutput) {
    let block_size = convolver.convolver().block_size();
    let chunks = convolver.process(block_size);
    assert_eq!(chunks.len(), 1);
    assert_eq!(chunks[0].chunk.len, block_size);
    (chunks[0].install, chunks[0].chunk.slot, chunks[0].output)
}

#[test]
fn fd_fades_with_the_block_after_the_update() {
    let mut convolver = CrossfadeConvolverFrequencyDomain::init(2048, 512, 2048, 0i32).unwrap();
    assert_eq!(whole_block(&mut convolver), (None, 0, BlockOutput::Copy(Target::A)));

    assert_eq!(convolver.update(&vec![5; 2048]), Placement::Install(Target::B));
    assert!(convolver.is_crossfading());
    assert_eq!(
        whole_block(&mut convolver),
        (None, 3, BlockOutput::Crossfade { fade_out: Target::A, fade_in: Target::B })
    );
    assert!(!convolver.is_crossfading());
    assert_eq!(convolver.fading_state(), FadingState::Reached(Target::B));

    assert_eq!(whole_block(&mut convolver), (None, 2, BlockOutput::Copy(Target::B)));
    assert_eq!(convolver.update(&vec![3; 100]), Placement::Install(Target::A));
}

#[test]
fn fd_keeps_one_pending_response() {
    let mut convolver = CrossfadeConvolverFrequencyDomain::init(512, 512, 512, 0i32).unwrap();
    assert_eq!(convolver.update(&vec![2; 512]), Placement::Install(Target::B));
    assert_eq!(convolver.update(&vec![3; 100]), Placement::Pending);
    assert_eq!(convolver.update(&vec![5; 200]), Placement::Pending);
    assert!(convolver.is_response_pending());
    let to_b = BlockOutput::Crossfade { fade_out: Target::A, fade_in: Target::B };
    let to_a = BlockOutput::Crossfade { fade_out: Target::B, fade_in: Target::A };
    assert_eq!(whole_block(&mut convolver), (None, 0, to_b));
    // the pending response goes into bank A with the next block, which fades to it
    assert_eq!(whole_block(&mut convolver), (Some(Target::A), 0, to_a));
    assert!(!convolver.is_response_pending());
    assert_eq!(whole_block(&mut convolver), (None, 0, BlockOutput::Copy(Target::A)));
}

#[test]
fn fd_with_no_segment_is_silent() {
    let mut convolver = CrossfadeConvolverFrequencyDomain::init(0, 512, 0, 0i32).unwrap();
    assert_eq!(convolver.advance(512), None);
    assert_eq!(convolver.update(&vec![1; 0]), Placement::Install(Target::B));
    assert!(convolver.process(512).is_empty());
    assert!(convolver.is_crossfading());
}

#[test]
fn fd_pending_slot_holds_the_latest_response_padded() {
    let mut convolver = CrossfadeConvolverFrequencyDomain::init(4, 2, 4, 0i32).unwrap();
    assert_eq!(convolver.stored_response(), [0, 0, 0, 0]);
    assert_eq!(convolver.update(&[1, 1, 1, 1]), Placement::Install(Target::B));
    assert_eq!(convolver.stored_response(), [0, 0, 0, 0]);
    assert_eq!(convolver.update(&[2, 2, 2, 2]), Placement::Pending);
    assert_eq!(convolver.update(&[3]), Placement::Pending);
    assert_eq!(convolver.stored_response(), [3, 0, 0, 0]);
    whole_block(&mut convolver);
    assert_eq!(whole_block(&mut convolver).0, Some(Target::A));
    assert_eq!(convolver.stored_response(), [3, 0, 0, 0]);
}

#[test]
fn fd_takes_calls_of_any_length() {
    let to_b = BlockOutput::Crossfade { fade_out: Target::A, fade_in: Target::B };
    let mut convolver = CrossfadeConvolverFrequencyDomain::init(1024, 256, 1024, 0i32).unwrap();
    let chunks = convolver.process(100);
    assert_eq!(chunks.len(), 1);
    assert_eq!((chunks[0].chunk.len, chunks[0].chunk.buffer_pos), (100, 0));
    assert_eq!(chunks[0].output, BlockOutput::Copy(Target::A));

    // within a block: the block goes on as it began, the next one fades
    assert_eq!(convolver.update(&vec![7; 1024]), Placement::Install(Target::B));
    assert!(convolver.is_crossfading());
    let chunks = convolver.process(600);
    let seen: Vec<_> = chunks
        .iter()
        .map(|item| (item.chunk.len, item.chunk.buffer_pos, item.chunk.slot, item.output))
        .collect();
    assert_eq!(
        seen,
        vec![
            (156, 100, 0, BlockOutput::Copy(Target::A)),
            (256, 0, 3, to_b),
            (188, 0, 2, BlockOutput::Copy(Target::B)),
        ]
    );
    assert!(!convolver.is_crossfading());
    assert_eq!(convolver.fading_state(), FadingState::Reached(Target::B));

    // a fade that is cut into chunks is one fade, and over with its block
    convolver.process(68);
    convolver.update(&vec![8; 1024]);
    let first = convolver.advance(100).unwrap();
    let to_a = BlockOutput::Crossfade { fade_out: Target::B, fade_in: Target::A };
    assert_eq!(first.output, to_a);
    assert!(convolver.is_crossfading());
    assert_eq!(convolver.update(&vec![9; 10]), Placement::Pending);
    let second = convolver.advance(1000).unwrap();
    assert_eq!((second.chunk.len, second.output, second.install), (156, to_a, None));
    assert!(!convolver.is_crossfading());
    let third = convolver.advance(1000).unwrap();
    assert_eq!(third.install, Some(Target::B));
    assert_eq!(third.output, to_b);
}

#[test]
fn fd_does_not_depend_on_how_the_input_is_cut() {
    let run = |outer: usize| {
        let mut convolver = CrossfadeConvolverFrequencyDomain::init(1024, 256, 1024, 0i32).unwrap();
        let mut blocks = Vec::new();
        let mut samples = 0;
        let mut produced = 0;
        while produced < 256 * 8 {
            if produced == 256 * 2 || produced == 256 * 5 {
                convolver.update(&vec![1; 1024]);
            }
            for item in convolver.process(outer) {
                if item.chunk.starts_block {
                    blocks.push((samples, item.chunk.slot, item.output));
                }
                samples += item.chunk.len;
            }
            produced += outer;
        }
        (blocks, convolver.fading_state(), convolver.convolver().current())
    };
    let reference = run(256);
    assert_eq!(reference.0.len(), 8);
    for outer in [1, 32, 128, 256] {
        assert_eq!(run(outer), reference);
    }
}
