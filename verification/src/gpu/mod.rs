//! Device memory and recorded commands.

pub mod command;
pub mod memory;
pub mod profiling;
pub mod recorder;
pub mod scratch;
pub mod tensor;
pub mod values;

pub use command::{Binding, Command, Dispatch, Multiply, Params, Size};
pub use memory::{DeviceMemory, ScratchPools};
pub use profiling::{DispatchStats, KernelBatchProfile, KernelDispatchProfile};
pub use recorder::Recorder;
pub use tensor::{DType, Tensor};
