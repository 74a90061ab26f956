//! Configuration of the vector store used for retrieval.

use vstd::prelude::*;
use crate::cosine::MAX_DIMENSION;
use crate::store::WasmVectorStore;

verus! {

/// How the retrieval store is to be set up.
pub struct VectorStoreConfig {
    pub store_type: String,
    pub store_name: String,
    pub dimension: usize,
    pub max_elements: Option<usize>,
}

impl<M> WasmVectorStore<M> {
    /// An empty index set up as `config` says: its dimension is locked to
    /// `config.dimension`.
    pub fn from_config(config: &VectorStoreConfig) -> (r: Self)
        requires
            config.dimension <= MAX_DIMENSION,
        ensures
            r.wf(),
            r@ == Map::<Seq<char>, (Seq<i8>, M)>::empty(),
            r.dim() == Some(config.dimension),
    {
        Self::with_dimension(config.dimension)
    }
}

} // verus!
