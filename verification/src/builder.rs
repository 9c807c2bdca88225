//! Putting a store together: a backend, and layers around it in the order in
//! which they were added.

pub mod maintenance;
pub mod strategies;

use core::marker::PhantomData;
use vstd::prelude::*;

use crate::builder::strategies::BackgroundStrategy;
use crate::error;
use crate::error::ErrorView;
use crate::error::Result;
use crate::s3::S3BlobStore;
use crate::s3::DEFAULT_MULTIPART_PART_SIZE;
use crate::s3::MIN_MULTIPART_PART_SIZE;

verus! {

/// The types of what a store is put together from.
pub trait Handles {
    /// The root directory of a file store.
    type Root;

    /// The client of an object store.
    type Client;

    /// A store of one's own.
    type Store;

    /// An encryption provider.
    type Provider;

    /// A predicate that selects blobs to clean up.
    type Predicate;

    /// A maintenance strategy.
    type Strategy: BackgroundStrategy;

    /// A layer of one's own.
    type Layer;
}

/// No backend has been chosen.
pub struct NoBackend;

/// A file store has been chosen.
pub struct FsChosen;

/// An object store has been chosen.
pub struct S3Chosen;

/// A store of one's own has been chosen.
pub struct CustomChosen;

/// The backend of a store.
pub enum BackendKind<H: Handles> {
    /// Files below a root directory.
    Fs(H::Root),
    /// Objects in a bucket.
    S3 { client: H::Client, bucket: String, part_size: u64 },
    /// A store of one's own.
    Custom(H::Store),
}

/// The kinds of backend.
pub enum Choice {
    Nothing,
    Fs,
    S3,
    Custom,
}

/// The kind of a backend.
pub open spec fn choice_of<H: Handles>(backend: Option<BackendKind<H>>) -> Choice {
    match backend {
        None => Choice::Nothing,
        Some(BackendKind::Fs(_)) => Choice::Fs,
        Some(BackendKind::S3 { .. }) => Choice::S3,
        Some(BackendKind::Custom(_)) => Choice::Custom,
    }
}

/// Which backend has been chosen, as the type of a builder tells it.
pub trait BackendState {
    /// The kind of the chosen backend.
    spec fn choice() -> Choice;
}

impl BackendState for NoBackend {
    open spec fn choice() -> Choice {
        Choice::Nothing
    }
}

impl BackendState for FsChosen {
    open spec fn choice() -> Choice {
        Choice::Fs
    }
}

impl BackendState for S3Chosen {
    open spec fn choice() -> Choice {
        Choice::S3
    }
}

impl BackendState for CustomChosen {
    open spec fn choice() -> Choice {
        Choice::Custom
    }
}

/// A layer around a store.
pub enum LayerKind<H: Handles> {
    /// A key prefix.
    Prefix(String),
    /// Encryption, with the strategy by which headers are rekeyed.
    Encryption { provider: H::Provider, rekey_strategy: Option<H::Strategy> },
    /// Cleanup, with the strategy by which it runs.
    Cleanup { predicate: H::Predicate, batch_size: usize, strategy: Option<H::Strategy> },
    /// A layer of one's own.
    Custom(H::Layer),
}

impl<H: Handles> LayerKind<H> {
    /// The strategy of the maintenance task that the layer brings with it.
    pub open spec fn task(&self) -> Option<H::Strategy> {
        match self {
            LayerKind::Encryption { rekey_strategy, .. } => *rekey_strategy,
            LayerKind::Cleanup { strategy, .. } => *strategy,
            _ => None,
        }
    }

    /// What is wrapped around the store for the layer.
    pub open spec fn wrapping(&self) -> WrapView<H> {
        match self {
            LayerKind::Prefix(prefix) => WrapView::Prefix(prefix@),
            LayerKind::Encryption { provider, .. } => WrapView::Encryption(*provider),
            LayerKind::Cleanup { predicate, batch_size, .. } => WrapView::Cleanup {
                predicate: *predicate,
                batch_size: *batch_size,
            },
            LayerKind::Custom(layer) => WrapView::Custom(*layer),
        }
    }

    /// Split the layer into what is wrapped around the store, and the strategy of
    /// the maintenance task that comes with it.
    pub fn wrap(self) -> (r: (Wrap<H>, Option<H::Strategy>))
        ensures
            r.0@ == self.wrapping(),
            r.1 == self.task(),
    {
        match self {
            LayerKind::Prefix(prefix) => (Wrap::Prefix(prefix), None),
            LayerKind::Encryption { provider, rekey_strategy } => (
                Wrap::Encryption(provider),
                rekey_strategy,
            ),
            LayerKind::Cleanup { predicate, batch_size, strategy } => (
                Wrap::Cleanup { predicate, batch_size },
                strategy,
            ),
            LayerKind::Custom(layer) => (Wrap::Custom(layer), None),
        }
    }
}

/// What is wrapped around a store.
pub enum Wrap<H: Handles> {
    /// A key prefix.
    Prefix(String),
    /// Encryption with the default header suffix. Its maintenance task rekeys the
    /// headers.
    Encryption(H::Provider),
    /// Cleanup. Its maintenance task runs the cleanup.
    Cleanup { predicate: H::Predicate, batch_size: usize },
    /// A layer of one's own.
    Custom(H::Layer),
}

/// The mathematical value of a [`Wrap`].
pub enum WrapView<H: Handles> {
    Prefix(Seq<char>),
    Encryption(H::Provider),
    Cleanup { predicate: H::Predicate, batch_size: usize },
    Custom(H::Layer),
}

impl<H: Handles> View for Wrap<H> {
    type V = WrapView<H>;

    open spec fn view(&self) -> WrapView<H> {
        match self {
            Wrap::Prefix(prefix) => WrapView::Prefix(prefix@),
            Wrap::Encryption(provider) => WrapView::Encryption(*provider),
            Wrap::Cleanup { predicate, batch_size } => WrapView::Cleanup {
                predicate: *predicate,
                batch_size: *batch_size,
            },
            Wrap::Custom(layer) => WrapView::Custom(*layer),
        }
    }
}

impl<H: Handles> DeepView for Wrap<H> {
    type V = WrapView<H>;

    open spec fn deep_view(&self) -> WrapView<H> {
        self@
    }
}

/// The maintenance task of a layer.
pub struct TaskPlan<T> {
    /// The position of the layer, counted from the backend outwards.
    pub layer: usize,
    /// When the task runs.
    pub strategy: T,
}

/// A backend that is ready to be used, save for what needs I/O.
pub enum Backend<H: Handles> {
    /// Files below a root directory, which is still to be created.
    Fs(H::Root),
    /// Objects in a bucket.
    S3(S3BlobStore<H::Client>),
    /// A store of one's own.
    Custom(H::Store),
}

/// Whether a backend is the one that was chosen.
pub open spec fn is_backend<H: Handles>(backend: Backend<H>, kind: BackendKind<H>) -> bool {
    match (backend, kind) {
        (Backend::Fs(root), BackendKind::Fs(chosen)) => root == chosen,
        (Backend::S3(store), BackendKind::S3 { client, bucket, part_size }) => {
            &&& store.client() == client
            &&& store.bucket() == bucket@
            &&& store.part_size() == if part_size >= MIN_MULTIPART_PART_SIZE {
                part_size
            } else {
                MIN_MULTIPART_PART_SIZE
            }
        },
        (Backend::Custom(store), BackendKind::Custom(chosen)) => store == chosen,
        _ => false,
    }
}

impl<H: Handles> BackendKind<H> {
    /// The chosen backend.
    pub fn build_raw(self) -> (r: Backend<H>)
        ensures
            is_backend(r, self),
    {
        match self {
            BackendKind::Fs(root) => Backend::Fs(root),
            BackendKind::S3 { client, bucket, part_size } => Backend::S3(
                S3BlobStore::new(client, bucket.as_str()).with_multipart_part_size(part_size),
            ),
            BackendKind::Custom(store) => Backend::Custom(store),
        }
    }
}

/// What is to be built: the backend, what is wrapped around it from the inside
/// out, and the maintenance tasks.
pub struct BuildPlan<H: Handles> {
    pub backend: Backend<H>,
    pub wraps: Vec<Wrap<H>>,
    pub tasks: Vec<TaskPlan<H::Strategy>>,
}

/// The first refusal among the strategies of layers, in order.
pub open spec fn strategies_validity<H: Handles>(layers: Seq<LayerKind<H>>) -> core::result::Result<
    (),
    ErrorView,
>
    decreases layers.len(),
{
    if layers.len() == 0 {
        Ok(())
    } else {
        match layers[0].task() {
            Some(strategy) => match strategy.validity() {
                Ok(()) => strategies_validity(layers.skip(1)),
                Err(e) => Err(e),
            },
            None => strategies_validity(layers.skip(1)),
        }
    }
}

/// Whether the layer that was added last is encryption.
pub open spec fn ends_with_encryption<H: Handles>(layers: Seq<LayerKind<H>>) -> bool {
    layers.len() > 0 && layers.last() is Encryption
}

/// The position of the cleanup layer that was added last; -1 where there is none.
pub open spec fn latest_cleanup<H: Handles>(layers: Seq<LayerKind<H>>) -> int
    decreases layers.len(),
{
    if layers.len() == 0 {
        -1
    } else if layers.last() is Cleanup {
        layers.len() - 1
    } else {
        latest_cleanup(layers.drop_last())
    }
}

/// The maintenance tasks of layers, in order.
pub open spec fn tasks_of<H: Handles>(layers: Seq<LayerKind<H>>) -> Seq<TaskPlan<H::Strategy>>
    decreases layers.len(),
{
    if layers.len() == 0 {
        seq![]
    } else {
        let before = tasks_of(layers.drop_last());
        match layers.last().task() {
            Some(strategy) => before.push(
                TaskPlan { layer: (layers.len() - 1) as usize, strategy },
            ),
            None => before,
        }
    }
}

/// Puts a store together. `B` tells which backend has been chosen.
pub struct BlobStoreBuilder<B: BackendState, H: Handles> {
    backend: Option<BackendKind<H>>,
    layers: Vec<LayerKind<H>>,
    state: PhantomData<B>,
}

impl<B: BackendState, H: Handles> BlobStoreBuilder<B, H> {
    /// The backend that has been chosen.
    pub closed spec fn backend(&self) -> Option<BackendKind<H>> {
        self.backend
    }

    /// The layers that have been added, from the inside out.
    pub closed spec fn layers(&self) -> Seq<LayerKind<H>> {
        self.layers@
    }

    /// The backend is the one that the type tells.
    #[verifier::type_invariant]
    spec fn wf(&self) -> bool {
        choice_of(self.backend) == B::choice()
    }
}

impl<H: Handles> BlobStoreBuilder<NoBackend, H> {
    /// A builder without backend and layers.
    pub fn new() -> (r: Self)
        ensures
            r.backend() is None,
            r.layers() == Seq::<LayerKind<H>>::empty(),
    {
        BlobStoreBuilder { backend: None, layers: Vec::new(), state: PhantomData }
    }

    /// Choose a file store.
    pub fn with_fs(self, root: H::Root) -> (r: BlobStoreBuilder<FsChosen, H>)
        ensures
            r.backend() == Some(BackendKind::<H>::Fs(root)),
            r.layers() == self.layers(),
    {
        BlobStoreBuilder {
            backend: Some(BackendKind::Fs(root)),
            layers: self.layers,
            state: PhantomData,
        }
    }

    /// Choose an object store with the default part size.
    pub fn with_s3(self, client: H::Client, bucket: &str) -> (r: BlobStoreBuilder<S3Chosen, H>)
        ensures
            r.backend() matches Some(BackendKind::S3 { client: c, bucket: b, part_size }) && c
                == client && b@ == bucket@ && part_size == DEFAULT_MULTIPART_PART_SIZE,
            r.layers() == self.layers(),
    {
        BlobStoreBuilder {
            backend: Some(
                BackendKind::S3 {
                    client,
                    bucket: bucket.to_owned(),
                    part_size: DEFAULT_MULTIPART_PART_SIZE,
                },
            ),
            layers: self.layers,
            state: PhantomData,
        }
    }

    /// Choose a store of one's own.
    pub fn with_backend(self, store: H::Store) -> (r: BlobStoreBuilder<CustomChosen, H>)
        ensures
            r.backend() == Some(BackendKind::<H>::Custom(store)),
            r.layers() == self.layers(),
    {
        BlobStoreBuilder {
            backend: Some(BackendKind::Custom(store)),
            layers: self.layers,
            state: PhantomData,
        }
    }
}

impl<H: Handles> Default for BlobStoreBuilder<NoBackend, H> {
    fn default() -> (r: Self)
        ensures
            r.backend() is None,
            r.layers() == Seq::<LayerKind<H>>::empty(),
    {
        Self::new()
    }
}

impl<B: BackendState, H: Handles> BlobStoreBuilder<B, H> {
    /// Add a layer around those that have been added.
    fn push(self, layer: LayerKind<H>) -> (r: Self)
        ensures
            r.backend() == self.backend(),
            r.layers() == self.layers().push(layer),
    {
        proof {
            use_type_invariant(&self);
        }
        let mut layers = self.layers;
        layers.push(layer);
        BlobStoreBuilder { backend: self.backend, layers, state: PhantomData }
    }

    /// Add a key prefix.
    pub fn with_prefix(self, prefix: &str) -> (r: Self)
        ensures
            r.backend() == self.backend(),
            r.layers().len() == self.layers().len() + 1,
            r.layers().drop_last() == self.layers(),
            r.layers().last() matches LayerKind::Prefix(p) && p@ == prefix@,
    {
        let layer = LayerKind::Prefix(prefix.to_owned());
        let r = self.push(layer);
        assert(r.layers().drop_last() =~= self.layers());
        r
    }

    /// Add encryption, without a strategy for rekeying.
    pub fn with_encryption(self, provider: H::Provider) -> (r: Self)
        ensures
            r.backend() == self.backend(),
            r.layers() == self.layers().push(
                LayerKind::Encryption { provider, rekey_strategy: None },
            ),
    {
        self.push(LayerKind::Encryption { provider, rekey_strategy: None })
    }

    /// Whether a strategy for rekeying would be taken: the layer that was added
    /// last is encryption.
    pub fn takes_rekey(&self) -> (r: bool)
        ensures
            r == ends_with_encryption(self.layers()),
    {
        if self.layers.len() == 0 {
            return false;
        }
        match &self.layers[self.layers.len() - 1] {
            LayerKind::Encryption { .. } => true,
            _ => false,
        }
    }

    /// Set the strategy for rekeying, where the layer that was added last is
    /// encryption; nothing changes otherwise.
    pub fn with_rekey(self, strategy: H::Strategy) -> (r: Self)
        ensures
            r.backend() == self.backend(),
            if ends_with_encryption(self.layers()) {
                r.layers() == self.layers().drop_last().push(
                    LayerKind::Encryption {
                        provider: self.layers().last()->provider,
                        rekey_strategy: Some(strategy),
                    },
                )
            } else {
                r.layers() == self.layers()
            },
    {
        proof {
            use_type_invariant(&self);
        }
        let ghost before = self.layers();
        let mut layers = self.layers;
        match layers.pop() {
            Some(LayerKind::Encryption { provider, .. }) => {
                layers.push(LayerKind::Encryption { provider, rekey_strategy: Some(strategy) });
            },
            Some(other) => {
                layers.push(other);
                assert(layers@ =~= before);
            },
            None => {},
        }
        BlobStoreBuilder { backend: self.backend, layers, state: PhantomData }
    }

    /// Add cleanup with the default batch size.
    pub fn with_clean(self, predicate: H::Predicate, strategy: H::Strategy) -> (r: Self)
        ensures
            r.backend() == self.backend(),
            r.layers() == self.layers().push(
                LayerKind::Cleanup {
                    predicate,
                    batch_size: crate::cleanup::DEFAULT_BATCH_SIZE,
                    strategy: Some(strategy),
                },
            ),
    {
        self.push(
            LayerKind::Cleanup {
                predicate,
                batch_size: crate::cleanup::DEFAULT_BATCH_SIZE,
                strategy: Some(strategy),
            },
        )
    }

    /// Set the batch size of the cleanup layer that was added last; nothing changes
    /// where there is none.
    pub fn with_clean_batch_size(self, batch_size: usize) -> (r: Self)
        ensures
            r.backend() == self.backend(),
            ({
                let n = latest_cleanup(self.layers());
                if n < 0 {
                    r.layers() == self.layers()
                } else {
                    r.layers() == self.layers().update(
                        n,
                        LayerKind::Cleanup {
                            predicate: self.layers()[n]->predicate,
                            batch_size,
                            strategy: self.layers()[n]->strategy,
                        },
                    )
                }
            }),
    {
        proof {
            use_type_invariant(&self);
        }
        let ghost before = self.layers();
        let mut layers = self.layers;
        let mut i: usize = layers.len();
        assert(before.take(i as int) =~= before);
        while i > 0
            invariant_except_break
                layers@ == before,
            invariant
                i <= before.len(),
                before.len() <= usize::MAX,
                latest_cleanup(before.take(i as int)) == latest_cleanup(before),
            ensures
                ({
                    let n = latest_cleanup(before);
                    if n < 0 {
                        layers@ == before
                    } else {
                        layers@ == before.update(
                            n,
                            LayerKind::Cleanup {
                                predicate: before[n]->predicate,
                                batch_size,
                                strategy: before[n]->strategy,
                            },
                        )
                    }
                }),
            decreases i,
        {
            let n: usize = i - 1;
            assert(before.take(i as int).drop_last() =~= before.take(n as int));
            match layers.remove(n) {
                LayerKind::Cleanup { predicate, strategy, .. } => {
                    layers.insert(n, LayerKind::Cleanup { predicate, batch_size, strategy });
                    assert(layers@ =~= before.update(
                        n as int,
                        LayerKind::Cleanup { predicate, batch_size, strategy },
                    ));
                    break;
                },
                other => {
                    layers.insert(n, other);
                    assert(layers@ =~= before);
                },
            }
            i = n;
        }
        BlobStoreBuilder { backend: self.backend, layers, state: PhantomData }
    }

    /// Add a layer of one's own.
    pub fn with_layer(self, layer: H::Layer) -> (r: Self)
        ensures
            r.backend() == self.backend(),
            r.layers() == self.layers().push(LayerKind::Custom(layer)),
    {
        self.push(LayerKind::Custom(layer))
    }

    /// Refuse the first unusable strategy.
    pub fn validate_strategies(&self) -> (r: Result<()>)
        ensures
            error::result_view(r) == strategies_validity(self.layers()),
    {
        let ghost all = self.layers();
        let mut i: usize = 0;
        assert(all.skip(0) =~= all);
        while i < self.layers.len()
            invariant
                i <= self.layers.len(),
                all == self.layers@,
                strategies_validity(all.skip(i as int)) == strategies_validity(all),
            decreases self.layers.len() - i,
        {
            assert(all.skip(i as int)[0] == all[i as int]);
            assert(all.skip(i as int).skip(1) =~= all.skip(i + 1));
            match &self.layers[i] {
                LayerKind::Encryption { rekey_strategy: Some(strategy), .. } => {
                    match strategy.validate() {
                        Ok(()) => {},
                        Err(e) => {
                            return Err(e);
                        },
                    }
                },
                LayerKind::Cleanup { strategy: Some(strategy), .. } => {
                    match strategy.validate() {
                        Ok(()) => {},
                        Err(e) => {
                            return Err(e);
                        },
                    }
                },
                _ => {},
            }
            i = i + 1;
        }
        Ok(())
    }

    /// What is to be built. An unusable strategy is refused before anything is.
    fn do_build(self) -> (r: Result<BuildPlan<H>>)
        requires
            self.backend() is Some,
        ensures
            match r {
                Ok(plan) => {
                    &&& strategies_validity(self.layers()) is Ok
                    &&& is_backend(plan.backend, self.backend()->0)
                    &&& plan.wraps.deep_view() == self.layers().map_values(
                        |l: LayerKind<H>| l.wrapping(),
                    )
                    &&& plan.tasks@ == tasks_of(self.layers())
                },
                Err(e) => strategies_validity(self.layers()) == Err::<(), ErrorView>(e@),
            },
    {
        match self.validate_strategies() {
            Err(e) => {
                return Err(e);
            },
            Ok(()) => {},
        }
        let ghost all = self.layers();
        let ghost split = |l: LayerKind<H>| l.wrapping();
        let backend = self.backend.unwrap().build_raw();
        let mut wraps: Vec<Wrap<H>> = Vec::new();
        let mut tasks: Vec<TaskPlan<H::Strategy>> = Vec::new();
        let mut position: usize = 0;
        for layer in it: self.layers
            invariant
                it.seq() == self.layers@,
                all == self.layers@,
                position == it.index(),
                self.layers.len() == all.len(),
                split == (|l: LayerKind<H>| l.wrapping()),
                wraps.deep_view() == all.take(it.index()).map_values(split),
                tasks@ == tasks_of(all.take(it.index())),
        {
            let ghost before = wraps.deep_view();
            let ghost i = it.index();
            assert(all[i] == layer);
            assert(all.take(i + 1).drop_last() =~= all.take(i));
            assert(all.take(i + 1).last() == layer);
            let (wrap, task) = layer.wrap();
            wraps.push(wrap);
            assert(wraps.deep_view() =~= before.push(split(layer)));
            assert(wraps.deep_view() =~= all.take(i + 1).map_values(split));
            if let Some(strategy) = task {
                tasks.push(TaskPlan { layer: position, strategy });
            }
            position = position + 1;
        }
        assert(all.take(all.len() as int) =~= all);
        Ok(BuildPlan { backend, wraps, tasks })
    }
}

/// What building gives: a plan for the chosen backend and for all layers in the
/// order in which they were added, or the refusal of the first unusable
/// strategy.
pub open spec fn built<B: BackendState, H: Handles>(
    builder: BlobStoreBuilder<B, H>,
    r: Result<BuildPlan<H>>,
) -> bool {
    match r {
        Ok(plan) => {
            &&& strategies_validity(builder.layers()) is Ok
            &&& builder.backend() is Some
            &&& is_backend(plan.backend, builder.backend()->0)
            &&& plan.wraps.deep_view() == builder.layers().map_values(
                |l: LayerKind<H>| l.wrapping(),
            )
            &&& plan.tasks@ == tasks_of(builder.layers())
        },
        Err(e) => strategies_validity(builder.layers()) == Err::<(), ErrorView>(e@),
    }
}

impl<H: Handles> BlobStoreBuilder<S3Chosen, H> {
    /// Set the size of a part of a multipart upload; sizes that the service would
    /// not accept are raised to the smallest one that it does.
    pub fn with_multipart_part_size(self, size: u64) -> (r: Self)
        ensures
            r.layers() == self.layers(),
            self.backend() matches Some(BackendKind::S3 { client, bucket, .. }) && r.backend()
                == Some(
                BackendKind::<H>::S3 {
                    client,
                    bucket,
                    part_size: if size >= MIN_MULTIPART_PART_SIZE {
                        size
                    } else {
                        MIN_MULTIPART_PART_SIZE
                    },
                },
            ),
    {
        proof {
            use_type_invariant(&self);
        }
        let part_size: u64 = if size >= MIN_MULTIPART_PART_SIZE {
            size
        } else {
            MIN_MULTIPART_PART_SIZE
        };
        let backend = match self.backend {
            Some(BackendKind::S3 { client, bucket, .. }) => Some(
                BackendKind::S3 { client, bucket, part_size },
            ),
            other => other,
        };
        BlobStoreBuilder { backend, layers: self.layers, state: PhantomData }
    }

    /// What is to be built.
    pub fn build(self) -> (r: Result<BuildPlan<H>>)
        ensures
            built(self, r),
    {
        proof {
            use_type_invariant(&self);
        }
        self.do_build()
    }
}

impl<H: Handles> BlobStoreBuilder<FsChosen, H> {
    /// What is to be built.
    pub fn build(self) -> (r: Result<BuildPlan<H>>)
        ensures
            built(self, r),
    {
        proof {
            use_type_invariant(&self);
        }
        self.do_build()
    }
}

impl<H: Handles> BlobStoreBuilder<CustomChosen, H> {
    /// What is to be built.
    pub fn build(self) -> (r: Result<BuildPlan<H>>)
        ensures
            built(self, r),
    {
        proof {
            use_type_invariant(&self);
        }
        self.do_build()
    }
}

/// The tasks of a plan stand in the order of their layers, one for each layer
/// that has a strategy, and run by that strategy.
pub proof fn law_tasks_follow_layers<H: Handles>(layers: Seq<LayerKind<H>>)
    requires
        layers.len() <= usize::MAX,
    ensures
        forall|i: int|
            0 <= i < tasks_of(layers).len() ==> {
                &&& (#[trigger] tasks_of(layers)[i]).layer < layers.len()
                &&& layers[tasks_of(layers)[i].layer as int].task() == Some(
                    tasks_of(layers)[i].strategy,
                )
            },
        forall|i: int, j: int|
            0 <= i < j < tasks_of(layers).len() ==> (#[trigger] tasks_of(layers)[i]).layer < (
            #[trigger] tasks_of(layers)[j]).layer,
        forall|n: int|
            0 <= n < layers.len() && (#[trigger] layers[n]).task() is Some ==> exists|i: int|
                0 <= i < tasks_of(layers).len() && (#[trigger] tasks_of(layers)[i]).layer == n,
    decreases layers.len(),
{
    if layers.len() > 0 {
        let first = layers.drop_last();
        let n = layers.len() - 1;
        law_tasks_follow_layers(first);
        let before = tasks_of(first);
        let tasks = tasks_of(layers);
        assert forall|i: int| 0 <= i < tasks.len() implies {
            &&& (#[trigger] tasks[i]).layer < layers.len()
            &&& layers[tasks[i].layer as int].task() == Some(tasks[i].strategy)
        } by {
            if i < before.len() {
                assert(tasks[i] == before[i]);
                assert(first[before[i].layer as int] == layers[before[i].layer as int]);
            }
        }
        assert forall|i: int, j: int| 0 <= i < j < tasks.len() implies (#[trigger] tasks[i]).layer
            < (#[trigger] tasks[j]).layer by {
            assert(tasks[i] == before[i]);
            if j < before.len() {
                assert(tasks[j] == before[j]);
            }
        }
        assert forall|m: int|
            0 <= m < layers.len() && (#[trigger] layers[m]).task() is Some implies exists|i: int|
            0 <= i < tasks.len() && (#[trigger] tasks[i]).layer == m by {
            if m < n {
                assert(first[m] == layers[m]);
                let i = choose|i: int| 0 <= i < before.len() && (#[trigger] before[i]).layer == m;
                assert(tasks[i].layer == m);
            } else {
                assert(tasks[before.len() as int].layer == m);
            }
        }
    }
}

/// Each layer is wrapped around the store with just what it was added with. Encryption
/// and cleanup bring the task of their strategy, where they have one; the other layers
/// bring none.
pub proof fn law_layers_are_wrapped_as_added<H: Handles>(
    prefix: String,
    provider: H::Provider,
    predicate: H::Predicate,
    batch_size: usize,
    layer: H::Layer,
    strategy: Option<H::Strategy>,
)
    ensures
        LayerKind::<H>::Prefix(prefix).wrapping() == WrapView::<H>::Prefix(prefix@),
        LayerKind::<H>::Prefix(prefix).task() is None,
        (LayerKind::<H>::Encryption { provider, rekey_strategy: strategy }).wrapping()
            == WrapView::<H>::Encryption(provider),
        (LayerKind::<H>::Encryption { provider, rekey_strategy: strategy }).task() == strategy,
        (LayerKind::<H>::Cleanup { predicate, batch_size, strategy }).wrapping() == (WrapView::<
            H,
        >::Cleanup { predicate, batch_size }),
        (LayerKind::<H>::Cleanup { predicate, batch_size, strategy }).task() == strategy,
        LayerKind::<H>::Custom(layer).wrapping() == WrapView::<H>::Custom(layer),
        LayerKind::<H>::Custom(layer).task() is None,
{
}

/// The backend that is built is the one that was chosen: the same root directory, the
/// same store, or the same client and bucket with the chosen part size, raised to 5 MiB
/// where it is smaller.
pub proof fn law_chosen_backend_is_built<H: Handles>(backend: Backend<H>, kind: BackendKind<H>)
    ensures
        is_backend(backend, kind) <==> match kind {
            BackendKind::Fs(root) => backend == Backend::<H>::Fs(root),
            BackendKind::Custom(store) => backend == Backend::<H>::Custom(store),
            BackendKind::S3 { client, bucket, part_size } => backend is S3 && {
                &&& backend->S3_0.client() == client
                &&& backend->S3_0.bucket() == bucket@
                &&& part_size >= 5 * 1024 * 1024 ==> backend->S3_0.part_size() == part_size
                &&& part_size < 5 * 1024 * 1024 ==> backend->S3_0.part_size() == 5 * 1024 * 1024
            },
        },
{
}

/// A builder tells by its type which backend was chosen.
pub proof fn law_choices_are_told_apart<H: Handles>(backend: Option<BackendKind<H>>)
    ensures
        choice_of(backend) == NoBackend::choice() <==> backend is None,
        choice_of(backend) == FsChosen::choice() <==> backend is Some && backend->0 is Fs,
        choice_of(backend) == S3Chosen::choice() <==> backend is Some && backend->0 is S3,
        choice_of(backend) == CustomChosen::choice() <==> backend is Some && backend->0 is Custom,
{
}

/// Building is refused exactly when a layer has an unusable strategy, with the refusal
/// of the first such layer.
pub proof fn law_first_unusable_strategy_decides<H: Handles>(layers: Seq<LayerKind<H>>)
    ensures
        strategies_validity(layers) is Ok <==> (forall|i: int|
            0 <= i < layers.len() && (#[trigger] layers[i]).task() is Some
                ==> layers[i].task()->0.validity() is Ok),
        forall|n: int|
            #![trigger layers[n]]
            0 <= n < layers.len() && layers[n].task() is Some && layers[n].task()->0.validity()
                is Err && (forall|i: int|
                0 <= i < n && (#[trigger] layers[i]).task() is Some
                    ==> layers[i].task()->0.validity() is Ok) ==> strategies_validity(layers)
                == layers[n].task()->0.validity(),
    decreases layers.len(),
{
    if layers.len() > 0 {
        let rest = layers.skip(1);
        law_first_unusable_strategy_decides(rest);
        assert forall|i: int| 0 <= i < rest.len() implies #[trigger] rest[i] == layers[i + 1] by {}
        let first_fine = layers[0].task() is Some ==> layers[0].task()->0.validity() is Ok;
        if forall|i: int|
            0 <= i < layers.len() && (#[trigger] layers[i]).task() is Some
                ==> layers[i].task()->0.validity() is Ok {
            assert forall|i: int| 0 <= i < rest.len() && (#[trigger] rest[i]).task() is Some
                implies rest[i].task()->0.validity() is Ok by {
                assert(rest[i] == layers[i + 1]);
            }
            assert(first_fine);
        }
        if strategies_validity(layers) is Ok {
            assert forall|i: int| 0 <= i < layers.len() && (#[trigger] layers[i]).task() is Some
                implies layers[i].task()->0.validity() is Ok by {
                if i > 0 {
                    assert(rest[i - 1] == layers[i]);
                }
            }
        }
        assert forall|n: int|
            #![trigger layers[n]]
            0 <= n < layers.len() && layers[n].task() is Some && layers[n].task()->0.validity()
                is Err && (forall|i: int|
                0 <= i < n && (#[trigger] layers[i]).task() is Some
                    ==> layers[i].task()->0.validity() is Ok) implies strategies_validity(layers)
            == layers[n].task()->0.validity() by {
            if n > 0 {
                assert(first_fine);
                assert(rest[n - 1] == layers[n]);
                assert forall|i: int|
                    0 <= i < n - 1 && (#[trigger] rest[i]).task() is Some implies
                    rest[i].task()->0.validity() is Ok by {
                    assert(rest[i] == layers[i + 1]);
                }
            }
        }
    }
}

/// The cleanup layer that a batch size is set on is the last one of those that were
/// added; a strategy for rekeying goes to the last layer of all, if that is encryption.
pub proof fn law_settings_go_to_the_last_layer<H: Handles>(layers: Seq<LayerKind<H>>)
    ensures
        -1 <= latest_cleanup(layers) < layers.len(),
        latest_cleanup(layers) >= 0 ==> layers[latest_cleanup(layers)] is Cleanup,
        forall|i: int|
            latest_cleanup(layers) < i < layers.len() ==> !(#[trigger] layers[i] is Cleanup),
        ends_with_encryption(layers) <==> layers.len() > 0 && layers[layers.len() - 1]
            is Encryption,
    decreases layers.len(),
{
    if layers.len() > 0 && !(layers.last() is Cleanup) {
        let first = layers.drop_last();
        law_settings_go_to_the_last_layer(first);
        assert forall|i: int| latest_cleanup(layers) < i < layers.len() implies !(
        #[trigger] layers[i] is Cleanup) by {
            if i < layers.len() - 1 {
                assert(first[i] == layers[i]);
            }
        }
        if latest_cleanup(layers) >= 0 {
            assert(first[latest_cleanup(layers)] == layers[latest_cleanup(layers)]);
        }
    }
}

/// A plan is built exactly when every strategy is usable. It has the chosen backend, a
/// wrapping for each layer in the order in which they were added, and a task for each
/// layer with a strategy.
pub proof fn law_plan_has_every_layer<B: BackendState, H: Handles>(
    builder: BlobStoreBuilder<B, H>,
    r: Result<BuildPlan<H>>,
    i: int,
)
    requires
        built(builder, r),
        0 <= i < builder.layers().len(),
    ensures
        r is Ok <==> strategies_validity(builder.layers()) is Ok,
        r matches Err(e) ==> strategies_validity(builder.layers()) == Err::<(), ErrorView>(e@),
        r matches Ok(plan) ==> {
            &&& builder.backend() is Some
            &&& is_backend(plan.backend, builder.backend()->0)
            &&& plan.wraps.len() == builder.layers().len()
            &&& plan.wraps[i]@ == builder.layers()[i].wrapping()
            &&& plan.tasks@ == tasks_of(builder.layers())
        },
{
    match r {
        Ok(plan) => {
            assert(plan.wraps.deep_view().len() == builder.layers().len());
            assert(plan.wraps.deep_view()[i] == builder.layers()[i].wrapping());
        },
        Err(_) => {},
    }
}

/// What is wrapped around a store is taken as it is.
pub proof fn law_wraps_are_taken_as_they_are<H: Handles>(wrap: Wrap<H>)
    ensures
        match wrap {
            Wrap::Prefix(prefix) => wrap@ == WrapView::<H>::Prefix(prefix@),
            Wrap::Encryption(provider) => wrap@ == WrapView::<H>::Encryption(provider),
            Wrap::Cleanup { predicate, batch_size } => wrap@ == (WrapView::<H>::Cleanup {
                predicate,
                batch_size,
            }),
            Wrap::Custom(layer) => wrap@ == WrapView::<H>::Custom(layer),
        },
{
}

} // verus!
