//! Cached keys and values of a sequence.

use crate::error::ModelError;
use crate::gpu::memory::{self, DeviceMemory};
use crate::gpu::tensor::{DType, Tensor, TensorModel};
use crate::qwen3::config::Qwen3Config;
use vstd::prelude::*;

verus! {

/// The keys and values of one layer.
pub struct LayerCache {
    pub key: Tensor,
    pub value: Tensor,
}

#[verifier::ext_equal]
pub struct LayerCacheModel {
    pub key: TensorModel,
    pub value: TensorModel,
}

impl LayerCacheModel {
    /// Whether the keys and the values lie in buffers of the device.
    pub open spec fn on_device(self) -> bool {
        self.key.on_device() && self.value.on_device()
    }
}

impl View for LayerCache {
    type V = LayerCacheModel;

    open spec fn view(&self) -> LayerCacheModel {
        LayerCacheModel { key: self.key@, value: self.value@ }
    }
}

impl LayerCache {
    /// The same keys and values.
    pub fn copy(&self) -> (out: LayerCache)
        ensures
            out@ == self@,
            out.key.stored() == self.key.stored(),
            out.value.stored() == self.value.stored(),
    {
        LayerCache { key: self.key.copy(), value: self.value.copy() }
    }
}

/// Room for `capacity` tokens in every layer, of which the first are filled.
pub struct KvCache {
    layers: Vec<LayerCache>,
    capacity: usize,
    filled: usize,
}

#[verifier::ext_equal]
pub struct KvCacheModel {
    pub layers: Seq<LayerCacheModel>,
    pub capacity: usize,
    pub filled: usize,
}

impl KvCacheModel {
    /// The length with so many more tokens, if they have room.
    pub open spec fn reserved(self, tokens: usize) -> Option<usize> {
        if self.filled + tokens <= self.capacity {
            Some((self.filled + tokens) as usize)
        } else {
            None
        }
    }
}

pub open spec fn layer_views(layers: Seq<LayerCache>) -> Seq<LayerCacheModel> {
    layers.map_values(|layer: LayerCache| layer@)
}

impl View for KvCache {
    type V = KvCacheModel;

    closed spec fn view(&self) -> KvCacheModel {
        KvCacheModel {
            layers: layer_views(self.layers@),
            capacity: self.capacity,
            filled: self.filled,
        }
    }
}

/// The shape of the cached keys, and of the cached values, of a layer.
pub open spec fn cache_shape(config: Qwen3Config, capacity: usize) -> Seq<usize> {
    seq![capacity, config.num_key_value_heads, config.head_dim]
}

/// Why a cache of this capacity cannot be had.
pub open spec fn cache_error(config: Qwen3Config, capacity: usize) -> Option<ModelError> {
    if capacity == 0 {
        Some(ModelError::EmptyKvCache)
    } else if config.num_hidden_layers == 0 {
        None
    } else {
        match memory::buffer_error(cache_shape(config, capacity), DType::F16) {
            Some(error) => Some(ModelError::Gpu(error)),
            None => None,
        }
    }
}

/// The cache of a layer whose keys are in buffer `first` and whose values are
/// in the next.
pub open spec fn fresh_layer(first: int, shape: Seq<usize>) -> LayerCacheModel {
    LayerCacheModel {
        key: memory::whole_buffer(first as usize, shape, DType::F16),
        value: memory::whole_buffer((first + 1) as usize, shape, DType::F16),
    }
}

impl KvCache {
    /// At most the capacity is filled, and all of it lies in buffers of the
    /// device.
    #[verifier::type_invariant]
    spec fn bounded(self) -> bool {
        &&& self.filled <= self.capacity
        &&& forall|i: int|
            0 <= i < self.layers@.len() ==> (#[trigger] self.layers@[i])@.on_device()
    }

    /// An empty cache with two new buffers for each layer.
    pub fn new(memory: &mut DeviceMemory, config: &Qwen3Config, capacity: usize) -> (result: Result<
        KvCache,
        ModelError,
    >)
        ensures
            final(memory)@.words == old(memory)@.words,
            match cache_error(*config, capacity) {
                Some(error) => {
                    &&& result == Err::<KvCache, ModelError>(error)
                    &&& final(memory).lens@ == old(memory).lens@
                },
                None => {
                    let before = old(memory).lens@;
                    let shape = cache_shape(*config, capacity);
                    let bytes = fresh_layer(0, shape).key.capacity;
                    &&& result is Ok
                    &&& result->Ok_0@.capacity == capacity
                    &&& result->Ok_0@.filled == 0
                    &&& result->Ok_0@.layers == Seq::new(
                        config.num_hidden_layers as nat,
                        |i: int| fresh_layer(before.len() + 2 * i, shape),
                    )
                    &&& final(memory).lens@ == before + Seq::new(
                        2 * config.num_hidden_layers as nat,
                        |i: int| bytes,
                    )
                },
            },
    {
        if capacity == 0 {
            return Err(ModelError::EmptyKvCache);
        }
        let shape: Vec<usize> = vec![capacity, config.num_key_value_heads, config.head_dim];
        let ghost before = memory.lens@;
        let ghost expected = cache_shape(*config, capacity);
        let ghost bytes = fresh_layer(0, expected).key.capacity;
        assert(shape@ =~= expected);
        let mut layers: Vec<LayerCache> = Vec::new();
        let mut index: usize = 0;
        assert(memory.lens@ =~= before + Seq::new(0nat, |i: int| bytes));
        while index < config.num_hidden_layers
            invariant
                index <= config.num_hidden_layers,
                capacity > 0,
                shape@ == expected,
                expected == cache_shape(*config, capacity),
                before == old(memory).lens@,
                memory@.words == old(memory)@.words,
                bytes == fresh_layer(0, expected).key.capacity,
                layers@.len() == index,
                index > 0 ==> memory::buffer_error(expected, DType::F16) is None,
                memory.lens@ == before + Seq::new((2 * index) as nat, |i: int| bytes),
                forall|i: int|
                    0 <= i < index ==> (#[trigger] layers@[i])@ == fresh_layer(
                        before.len() + 2 * i,
                        expected,
                    ),
            decreases config.num_hidden_layers - index,
        {
            let key = match memory.empty(shape.as_slice(), DType::F16) {
                Ok(tensor) => tensor,
                Err(error) => return Err(ModelError::Gpu(error)),
            };
            let value = match memory.empty(shape.as_slice(), DType::F16) {
                Ok(tensor) => tensor,
                Err(error) => return Err(ModelError::Gpu(error)),
            };
            layers.push(LayerCache { key, value });
            assert(memory.lens@ =~= before + Seq::new((2 * (index + 1)) as nat, |i: int| bytes));
            index += 1;
        }
        assert(layer_views(layers@) =~= Seq::new(
            config.num_hidden_layers as nat,
            |i: int| fresh_layer(before.len() + 2 * i, expected),
        ));
        assert((2 * index) as nat == 2 * config.num_hidden_layers as nat);
        Ok(KvCache { layers, capacity, filled: 0 })
    }

    /// A cache over the same keys and values, with a count of its own.
    pub fn copy(&self) -> (out: KvCache)
        ensures
            out@ == self@,
    {
        proof {
            use_type_invariant(self);
        }
        let mut layers: Vec<LayerCache> = Vec::new();
        let mut i: usize = 0;
        while i < self.layers.len()
            invariant
                i <= self.layers@.len(),
                layers@.len() == i,
                forall|j: int| 0 <= j < i ==> (#[trigger] layers@[j])@ == self.layers@[j]@,
            decreases self.layers.len() - i,
        {
            layers.push(self.layers[i].copy());
            i += 1;
        }
        proof {
            use_type_invariant(self);
            assert forall|j: int| 0 <= j < layers@.len() implies (
            #[trigger] layers@[j])@.on_device() by {
                assert(self.layers@[j]@.on_device());
            }
            assert(layer_views(layers@) =~= layer_views(self.layers@));
        }
        KvCache { layers, capacity: self.capacity, filled: self.filled }
    }

    /// Tokens that are filled.
    pub fn len(&self) -> (length: usize)
        ensures
            length == self@.filled,
            length <= self@.capacity,
    {
        proof {
            use_type_invariant(self);
        }
        self.filled
    }

    pub fn is_empty(&self) -> (answer: bool)
        ensures
            answer == (self@.filled == 0),
    {
        self.filled == 0
    }

    pub fn capacity(&self) -> (capacity: usize)
        ensures
            capacity == self@.capacity,
    {
        self.capacity
    }

    /// Forgets every token.
    pub fn reset(&mut self)
        ensures
            final(self)@ == (KvCacheModel { filled: 0, ..old(self)@ }),
    {
        proof {
            use_type_invariant(&*self);
        }
        self.filled = 0;
    }

    pub fn layer(&self, index: usize) -> (result: Result<&LayerCache, ModelError>)
        ensures
            match result {
                Ok(layer) => {
                    &&& index < self@.layers.len()
                    &&& layer@ == self@.layers[index as int]
                    &&& layer@.on_device()
                },
                Err(error) => index >= self@.layers.len() && error == ModelError::MissingCacheLayer,
            },
    {
        proof {
            use_type_invariant(self);
        }
        if index < self.layers.len() {
            Ok(&self.layers[index])
        } else {
            Err(ModelError::MissingCacheLayer)
        }
    }

    pub fn layer_count(&self) -> (count: usize)
        ensures
            count == self@.layers.len(),
    {
        self.layers.len()
    }

    /// The length with so many more tokens, if they have room.
    pub fn reserve(&self, tokens: usize) -> (result: Result<usize, ModelError>)
        ensures
            match self@.reserved(tokens) {
                Some(length) => result == Ok::<usize, ModelError>(length),
                None => result == Err::<usize, ModelError>(ModelError::CacheCapacity),
            },
    {
        match self.filled.checked_add(tokens) {
            Some(length) => if length <= self.capacity {
                Ok(length)
            } else {
                Err(ModelError::CacheCapacity)
            },
            None => Err(ModelError::CacheCapacity),
        }
    }

    /// Counts tokens that were written. Without room nothing changes.
    pub fn advance(&mut self, tokens: usize) -> (result: Result<(), ModelError>)
        ensures
            match old(self)@.reserved(tokens) {
                Some(length) => {
                    &&& result is Ok
                    &&& final(self)@ == (KvCacheModel { filled: length, ..old(self)@ })
                },
                None => {
                    &&& result == Err::<(), ModelError>(ModelError::CacheCapacity)
                    &&& final(self)@ == old(self)@
                },
            },
    {
        proof {
            use_type_invariant(&*self);
        }
        let length: usize = match self.reserve(tokens) {
            Ok(length) => length,
            Err(error) => return Err(error),
        };
        self.filled = length;
        Ok(())
    }

    /// Forgets the tokens from `length` on.
    pub fn truncate(&mut self, length: usize)
        ensures
            final(self)@ == (KvCacheModel {
                filled: if old(self)@.filled <= length {
                    old(self)@.filled
                } else {
                    length
                },
                ..old(self)@
            }),
    {
        proof {
            use_type_invariant(&*self);
        }
        if self.filled > length {
            self.filled = length;
        }
    }
}

/// Truncating to the length before an advance undoes it.
pub proof fn truncate_undoes_advance(cache: KvCacheModel, tokens: usize)
    requires
        cache.reserved(tokens) is Some,
    ensures
        ({
            let advanced = KvCacheModel { filled: cache.reserved(tokens)->Some_0, ..cache };
            let truncated = KvCacheModel {
                filled: if advanced.filled <= cache.filled {
                    advanced.filled
                } else {
                    cache.filled
                },
                ..advanced
            };
            truncated == cache
        }),
{
}

} // verus!
