use convolution::fft_convolver::ConfigError;
use convolution::stepwise_update_convolver::{
    BlockStart, ResponseSlot, StepwiseChunk, StepwiseUpdateConvolver,
};

#[test]
fn stepwise_new_checks_the_configuration() {
    assert_eq!(
        StepwiseUpdateConvolver::new(1025, 1024, 256, 0i32).err(),
        Some(ConfigError::ResponseTooLong)
    );
    assert_eq!(
        StepwiseUpdateConvolver::new(10, 1024, 0, 0i32).err(),
        Some(ConfigError::ZeroBlockSize)
    );
    assert_eq!(
        StepwiseUpdateConvolver::init(10, 0, 1024, 0i32).err(),
        Some(ConfigError::ZeroBlockSize)
    );
    let convolver = StepwiseUpdateConvolver::init(10, 200, 1024, 0i32).unwrap();
    assert_eq!(convolver.convolver().block_size(), 256);
    assert_eq!(convolver.convolver().active_seg_count(), 4);
    assert!(!convolver.is_switching());
    assert!(!convolver.is_response_pending());
    assert_eq!(convolver.stored_response(), vec![0; 1024]);
    assert_eq!(convolver.next_response(), vec![0; 1024]);
}

#[test]
fn stepwise_without_update_loads_nothing() {
    let mut convolver = StepwiseUpdateConvolver::new(1024, 1024, 256, 0i32).unwrap();
    for _ in 0..5 {
        let chunks = convolver.process(256);
        assert_eq!(chunks.len(), 1);
        assert_eq!(chunks[0].start, Some(BlockStart { promoted: false, load_segment: None }));
    }
}

#[test]
fn stepwise_loads_one_segment_per_block_in_order() {
    let mut convolver = StepwiseUpdateConvolver::new(1024, 1024, 256, 0i32).unwrap();
    assert_eq!(convolver.update(&[1; 1024]), ResponseSlot::Stored);
    assert!(convolver.is_switching());
    let mut loaded = Vec::new();
    for _ in 0..6 {
        let chunks = convolver.process(256);
        assert_eq!(chunks.len(), 1);
        let start = chunks[0].start.unwrap();
        assert!(!start.promoted);
        loaded.push(start.load_segment);
    }
    assert_eq!(loaded, vec![Some(0), Some(1), Some(2), Some(3), None, None]);
    assert!(!convolver.is_switching());
}

#[test]
fn stepwise_loads_do_not_depend_on_how_the_input_is_cut() {
    let run = |outer: usize| {
        let mut convolver = StepwiseUpdateConvolver::new(1024, 1024, 256, 0i32).unwrap();
        let mut loads = Vec::new();
        let mut samples = 0;
        let total = 256 * 8;
        let mut produced = 0;
        while produced < total {
            if produced == 256 * 2 {
                convolver.update(&[1; 1024]);
            }
            for item in convolver.process(outer) {
                if let Some(BlockStart { load_segment: Some(segment), .. }) = item.start {
                    loads.push((samples, segment));
                }
                samples += item.chunk.len;
            }
            produced += outer;
        }
        assert_eq!(samples, total);
        (loads, convolver.convolver().current(), convolver.is_switching())
    };
    let reference = run(256);
    // segment i is replaced i blocks after the update
    assert_eq!(reference.0, vec![(512, 0), (768, 1), (1024, 2), (1280, 3)]);
    for outer in [1, 32, 128, 512] {
        assert_eq!(run(outer), reference);
    }
}

#[test]
fn stepwise_update_pads_the_response_with_silence() {
    let mut convolver = StepwiseUpdateConvolver::new(6, 6, 2, 0i32).unwrap();
    convolver.update(&[1, 2, 3, 4, 5, 6]);
    assert_eq!(convolver.stored_response(), [1, 2, 3, 4, 5, 6]);
    while convolver.is_switching() {
        convolver.begin_block();
    }
    // a shorter response leaves nothing of the longer one behind
    convolver.update(&[7, 8]);
    assert_eq!(convolver.stored_response(), [7, 8, 0, 0, 0, 0]);
    convolver.update(&[]);
    assert_eq!(convolver.next_response(), [0, 0, 0, 0, 0, 0]);
    assert_eq!(convolver.stored_response(), [7, 8, 0, 0, 0, 0]);
}

#[test]
fn stepwise_keeps_one_pending_response() {
    let mut convolver = StepwiseUpdateConvolver::new(4, 4, 2, 0i32).unwrap();
    assert_eq!(convolver.update(&[1, 1, 1, 1]), ResponseSlot::Stored);
    assert_eq!(convolver.update(&[2, 2, 2]), ResponseSlot::Next);
    assert_eq!(convolver.update(&[3, 3]), ResponseSlot::Next);
    assert!(convolver.is_response_pending());
    assert_eq!(convolver.stored_response(), [1, 1, 1, 1]);
    assert_eq!(convolver.next_response(), [3, 3, 0, 0]);
    assert_eq!(convolver.begin_block(), BlockStart { promoted: false, load_segment: Some(0) });
    assert_eq!(convolver.begin_block(), BlockStart { promoted: false, load_segment: Some(1) });
    assert!(!convolver.is_switching());
    assert!(convolver.is_response_pending());
    assert_eq!(convolver.stored_response(), [1, 1, 1, 1]);
    // the waiting response is promoted and its first segment loaded with the next call
    assert_eq!(convolver.begin_block(), BlockStart { promoted: true, load_segment: Some(0) });
    assert_eq!(convolver.stored_response(), [3, 3, 0, 0]);
    assert!(convolver.is_switching());
    assert!(!convolver.is_response_pending());
    assert_eq!(convolver.begin_block(), BlockStart { promoted: false, load_segment: Some(1) });
    assert_eq!(convolver.begin_block(), BlockStart { promoted: false, load_segment: None });
}

#[test]
fn stepwise_advance_cuts_at_block_boundaries() {
    let mut convolver = StepwiseUpdateConvolver::new(512, 512, 256, 0i32).unwrap();
    let StepwiseChunk { start, chunk: first } = convolver.advance(300).unwrap();
    assert_eq!(start, Some(BlockStart { promoted: false, load_segment: None }));
    assert_eq!((first.len, first.buffer_pos, first.slot), (256, 0, 0));
    assert!(first.starts_block && first.completes_block);
    convolver.update(&[1; 512]);
    let StepwiseChunk { start, chunk: second } = convolver.advance(44).unwrap();
    assert_eq!(start, Some(BlockStart { promoted: false, load_segment: Some(0) }));
    assert_eq!((second.len, second.buffer_pos, second.slot), (44, 0, 1));
    assert!(second.starts_block && !second.completes_block);
    // within the block nothing is started
    let StepwiseChunk { start, chunk: third } = convolver.advance(300).unwrap();
    assert_eq!(start, None);
    assert_eq!((third.len, third.buffer_pos), (212, 44));
    assert_eq!(convolver.advance(0), None);
    assert_eq!(convolver.convolver().input_buffer_fill(), 0);
}

#[test]
fn stepwise_with_no_segment_is_silent() {
    let mut convolver = StepwiseUpdateConvolver::new(0, 0, 256, 0i32).unwrap();
    assert_eq!(convolver.update(&[]), ResponseSlot::Stored);
    assert!(convolver.process(256).is_empty());
    assert_eq!(convolver.advance(256), None);
    assert_eq!(convolver.begin_block(), BlockStart { promoted: false, load_segment: None });
    assert!(!convolver.is_switching());
}
