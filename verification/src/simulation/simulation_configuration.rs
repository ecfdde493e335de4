use vstd::prelude::*;
use crate::simulation::fluids::Fluids;

verus! {

/// Why a simulation configuration cannot create a streaming tile buffer
#[derive(Clone, Copy, Debug, PartialEq, Eq)]
pub enum ConfigurationError {
    /// The active width or height is zero
    ZeroDimensions,
    /// The streaming batch size is zero
    ZeroStreamingBatch,
    /// The streaming batch is wider or taller than the active area
    BatchExceedsDimensions,
    /// The buffer size is not a multiple of the streaming batch size
    BufferNotBatchMultiple,
    /// The buffer cannot hold a streaming batch plus the fluid support margin
    BufferTooSmallForFluids,
    /// The active area plus the buffer on both sides overflows a `u16`
    BufferExceedsSceneDimensions,
}

impl ConfigurationError {
    /// The human-readable description used when the error is reported
    pub fn message(&self) -> (text: &'static str)
        ensures
            text@ == match self {
                ConfigurationError::ZeroDimensions => "Simulation dimensions must not be zero"@,
                ConfigurationError::ZeroStreamingBatch => "Simulation streaming batch size must not be zero"@,
                ConfigurationError::BatchExceedsDimensions => "Simulation streaming batch size exceeds the simulation dimensions"@,
                ConfigurationError::BufferNotBatchMultiple => "Simulation buffer size must be a multiple of streaming batch size"@,
                ConfigurationError::BufferTooSmallForFluids => "Simulation buffer cannot contain fluid motion and boundary support"@,
                ConfigurationError::BufferExceedsSceneDimensions => "Simulation buffer exceeds the maximum scene dimensions"@,
            },
    {
        match self {
            ConfigurationError::ZeroDimensions => "Simulation dimensions must not be zero",
            ConfigurationError::ZeroStreamingBatch => "Simulation streaming batch size must not be zero",
            ConfigurationError::BatchExceedsDimensions => "Simulation streaming batch size exceeds the simulation dimensions",
            ConfigurationError::BufferNotBatchMultiple => "Simulation buffer size must be a multiple of streaming batch size",
            ConfigurationError::BufferTooSmallForFluids => "Simulation buffer cannot contain fluid motion and boundary support",
            ConfigurationError::BufferExceedsSceneDimensions => "Simulation buffer exceeds the maximum scene dimensions",
        }
    }
}

/// Configures the active and buffered simulation area of a `Scene`
pub struct SimulationConfiguration {
    /// The width of the active simulation area in tiles
    pub width: u16,
    /// The height of the active simulation area in tiles
    pub height: u16,
    /// The size of the GPU-resident buffer around the active area
    pub buffer_size: u8,
    /// The required batch size when streaming tiles into and out of the scene
    pub streaming_batch_size: u8,
}

/// The first rule, in checking order, that the given dimensions break
pub open spec fn spec_streaming_error(
    width: u16,
    height: u16,
    buffer_size: u8,
    streaming_batch_size: u8,
) -> Option<ConfigurationError> {
    if width == 0 || height == 0 {
        Some(ConfigurationError::ZeroDimensions)
    } else if streaming_batch_size == 0 {
        Some(ConfigurationError::ZeroStreamingBatch)
    } else if streaming_batch_size > width || streaming_batch_size > height {
        Some(ConfigurationError::BatchExceedsDimensions)
    } else if buffer_size % streaming_batch_size != 0 {
        Some(ConfigurationError::BufferNotBatchMultiple)
    } else if width + 2 * buffer_size > u16::MAX || height + 2 * buffer_size > u16::MAX {
        Some(ConfigurationError::BufferExceedsSceneDimensions)
    } else {
        None
    }
}

/// The result of validating streaming dimensions, as a `Result`
pub open spec fn spec_validate(
    width: u16,
    height: u16,
    buffer_size: u8,
    streaming_batch_size: u8,
) -> Result<(), ConfigurationError> {
    match spec_streaming_error(width, height, buffer_size, streaming_batch_size) {
        Some(error) => Err(error),
        None => Ok(()),
    }
}

/// The first rule, in checking order, that the dimensions of a scene break: the
/// streaming rules, with the fluid margin checked before the scene size
pub open spec fn spec_scene_streaming_error(
    width: u16,
    height: u16,
    buffer_size: u8,
    streaming_batch_size: u8,
) -> Option<ConfigurationError> {
    if width == 0 || height == 0 {
        Some(ConfigurationError::ZeroDimensions)
    } else if streaming_batch_size == 0 {
        Some(ConfigurationError::ZeroStreamingBatch)
    } else if streaming_batch_size > width || streaming_batch_size > height {
        Some(ConfigurationError::BatchExceedsDimensions)
    } else if buffer_size % streaming_batch_size != 0 {
        Some(ConfigurationError::BufferNotBatchMultiple)
    } else if buffer_size < streaming_batch_size + 1 {
        Some(ConfigurationError::BufferTooSmallForFluids)
    } else if width + 2 * buffer_size > u16::MAX || height + 2 * buffer_size > u16::MAX {
        Some(ConfigurationError::BufferExceedsSceneDimensions)
    } else {
        None
    }
}

/// Validates the streaming dimensions of a scene: besides the streaming rules, the
/// buffer must hold a streaming batch plus the tiles that fluid motion and particle
/// support reach beyond the active area
pub fn validate_scene_dimensions(
    width: u16,
    height: u16,
    buffer_size: u8,
    streaming_batch_size: u8,
) -> (result: Result<(), ConfigurationError>)
    ensures
        result == match spec_scene_streaming_error(width, height, buffer_size, streaming_batch_size) {
            Some(error) => Err::<(), ConfigurationError>(error),
            None => Ok(()),
        },
{
    if width == 0 || height == 0 {
        return Err(ConfigurationError::ZeroDimensions);
    }
    if streaming_batch_size == 0 {
        return Err(ConfigurationError::ZeroStreamingBatch);
    }
    if (streaming_batch_size as u16) > width || (streaming_batch_size as u16) > height {
        return Err(ConfigurationError::BatchExceedsDimensions);
    }
    if buffer_size % streaming_batch_size != 0 {
        return Err(ConfigurationError::BufferNotBatchMultiple);
    }
    if (buffer_size as u16) < (streaming_batch_size as u16) + (Fluids::minimum_buffer_tiles() as u16) {
        return Err(ConfigurationError::BufferTooSmallForFluids);
    }
    let doubled: u16 = (buffer_size as u16) * 2;
    if width.checked_add(doubled).is_none() || height.checked_add(doubled).is_none() {
        return Err(ConfigurationError::BufferExceedsSceneDimensions);
    }
    Ok(())
}

impl SimulationConfiguration {
    /// Validates that this configuration can create a streaming tile buffer
    pub fn validate(&self) -> (result: Result<(), ConfigurationError>)
        ensures
            result == spec_validate(self.width, self.height, self.buffer_size, self.streaming_batch_size),
    {
        if self.width == 0 || self.height == 0 {
            return Err(ConfigurationError::ZeroDimensions);
        }
        if self.streaming_batch_size == 0 {
            return Err(ConfigurationError::ZeroStreamingBatch);
        }
        if (self.streaming_batch_size as u16) > self.width
            || (self.streaming_batch_size as u16) > self.height {
            return Err(ConfigurationError::BatchExceedsDimensions);
        }
        if self.buffer_size % self.streaming_batch_size != 0 {
            return Err(ConfigurationError::BufferNotBatchMultiple);
        }
        let buffer_size: u16 = (self.buffer_size as u16) * 2;
        if self.width.checked_add(buffer_size).is_none()
            || self.height.checked_add(buffer_size).is_none() {
            return Err(ConfigurationError::BufferExceedsSceneDimensions);
        }
        Ok(())
    }
}

/// A streaming batch wider or taller than a non-empty active area is refused for
/// exactly that reason, by a configuration and by a scene alike
pub proof fn lemma_oversized_batch_refused(width: u16, height: u16, buffer_size: u8, streaming_batch_size: u8)
    requires
        width > 0,
        height > 0,
        streaming_batch_size > 0,
        streaming_batch_size > width || streaming_batch_size > height,
    ensures
        spec_validate(width, height, buffer_size, streaming_batch_size) == Err::<(), ConfigurationError>(
            ConfigurationError::BatchExceedsDimensions,
        ),
        spec_scene_streaming_error(width, height, buffer_size, streaming_batch_size) == Some(
            ConfigurationError::BatchExceedsDimensions,
        ),
{
}

/// A configuration is accepted exactly when its area is not empty, its batch is not
/// empty and fits the area in both directions, its buffer is a whole number of
/// batches, and the area plus the buffer on both sides fits a `u16`
pub proof fn lemma_accepted_configurations(width: u16, height: u16, buffer_size: u8, streaming_batch_size: u8)
    ensures
        spec_validate(width, height, buffer_size, streaming_batch_size) is Ok <==> {
            &&& width > 0 && height > 0
            &&& streaming_batch_size > 0
            &&& streaming_batch_size <= width && streaming_batch_size <= height
            &&& buffer_size % streaming_batch_size == 0
            &&& width + 2 * buffer_size <= u16::MAX && height + 2 * buffer_size <= u16::MAX
        },
{
}

} // verus!
