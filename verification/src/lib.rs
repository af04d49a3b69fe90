//! Control logic of a block-based convolution engine whose impulse response
//! can be replaced while audio is streaming.
//!
//! This crate keeps the books of such an engine and proves them right:
//! which block is being filled and which spectrum slot is the newest,
//! which segment of the impulse response is replaced next and with which
//! weight, what the crossfader hands out for each sample, and what the
//! response buffers and the pending slot hold. It does no arithmetic on
//! samples: a sample is a value of any type that can be copied. The
//! transforms and the sums of products are done by the caller, who
//! follows the decisions returned from here.

pub mod crossfade_convolver_fd;
pub mod crossfade_convolver_td;
pub mod crossfader;
pub mod faded_stepwise_update_convolver;
pub mod fft_convolver;
pub mod stepwise_update_convolver;
