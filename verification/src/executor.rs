//! The executor adapter: one stateless block builder at a time, rebuilt
//! whenever the safe head advances.

use crate::primitives::B256;
use vstd::prelude::*;

verus! {

/// A stateless block builder, anchored at one header. Its view of the state
/// trie is valid for that header only.
pub trait StatelessBuilder: Sized {
    /// What a builder is configured with.
    type Config;

    /// The header at which a builder is anchored.
    type Header;

    /// The attributes from which a block is built.
    type Attributes;

    /// What building a block gives.
    type Outcome;

    /// Why building can fail.
    type Error;

    /// A fresh builder on top of the given header.
    fn anchored_at(config: &Self::Config, header: &Self::Header) -> Self;

    /// Builds the block that the attributes describe.
    fn build_block(&mut self, attributes: Self::Attributes) -> Result<Self::Outcome, Self::Error>;

    /// The output root at the builder's latest block.
    fn compute_output_root(&mut self) -> Result<B256, Self::Error>;
}

/// Why the executor could not do what it was asked.
#[derive(Debug, PartialEq, Eq)]
pub enum ExecutorError<E> {
    /// No safe head was set yet, so there is no builder.
    MissingExecutor,
    /// The builder failed.
    Builder(E),
}

/// Binds a stateless block builder to the driver. The executor owns at
/// most one builder, the one for the current safe head, and replaces it
/// wholesale when the safe head moves.
pub struct KonaExecutor<B: StatelessBuilder> {
    config: B::Config,
    current: Option<(B::Header, B)>,
}

impl<B: StatelessBuilder> KonaExecutor<B> {
    /// The configuration with which builders are made.
    pub closed spec fn config(&self) -> B::Config {
        self.config
    }

    /// The header at which the current builder is anchored, if there is a
    /// builder.
    pub closed spec fn anchor(&self) -> Option<B::Header> {
        match self.current {
            Some(current) => Some(current.0),
            None => None,
        }
    }

    /// The current builder, if there is one.
    pub closed spec fn builder(&self) -> Option<B> {
        match self.current {
            Some(current) => Some(current.1),
            None => None,
        }
    }

    /// An executor without a builder.
    pub fn new(config: B::Config) -> (r: Self)
        ensures
            r.config() == config,
            r.anchor() is None,
            r.builder() is None,
    {
        KonaExecutor { config, current: None }
    }

    /// Nothing to wait for: a stateless executor is ready at once.
    pub fn wait_until_ready(&mut self)
        ensures
            *final(self) == *old(self),
    {
    }

    /// Whether a safe head was set.
    pub fn is_ready(&self) -> (r: bool)
        ensures
            r == self.anchor() is Some,
            r == self.builder() is Some,
    {
        self.current.is_some()
    }

    /// Moves to a new safe head: whatever builder there was is dropped, and
    /// a fresh one is made on top of the given header. The new builder is
    /// what `anchored_at` returned for the configuration and that header;
    /// nothing of the old builder is kept.
    pub fn update_safe_head(&mut self, header: B::Header)
        ensures
            final(self).anchor() == Some(header),
            final(self).builder() is Some,
            final(self).config() == old(self).config(),
            call_ensures(
                B::anchored_at,
                (&old(self).config(), &header),
                final(self).builder()->0,
            ),
    {
        let make = B::anchored_at;
        let builder = make(&self.config, &header);
        self.current = Some((header, builder));
    }

    /// What the executor returns for a builder's result.
    pub fn builder_result<T>(result: Result<T, B::Error>) -> (r: Result<T, ExecutorError<B::Error>>)
        ensures
            r == match result {
                Ok(value) => Ok::<T, ExecutorError<B::Error>>(value),
                Err(e) => Err(ExecutorError::Builder(e)),
            },
    {
        match result {
            Ok(value) => Ok(value),
            Err(e) => Err(ExecutorError::Builder(e)),
        }
    }

    /// Builds the block that the attributes describe, on the current
    /// builder. Without a builder this fails with `MissingExecutor`, and
    /// with one it never does: what the builder returns is passed on as
    /// `builder_result` says.
    pub fn execute_payload(&mut self, attributes: B::Attributes) -> (r: Result<
        B::Outcome,
        ExecutorError<B::Error>,
    >)
        ensures
            r matches Err(ExecutorError::MissingExecutor) <==> old(self).anchor() is None,
            final(self).anchor() == old(self).anchor(),
            final(self).builder() is Some <==> old(self).builder() is Some,
            final(self).config() == old(self).config(),
            old(self).anchor() is None ==> *final(self) == *old(self),
    {
        let mut current: Option<(B::Header, B)> = None;
        core::mem::swap(&mut self.current, &mut current);
        match current {
            None => Err(ExecutorError::MissingExecutor),
            Some((header, mut builder)) => {
                let result = builder.build_block(attributes);
                self.current = Some((header, builder));
                Self::builder_result(result)
            },
        }
    }

    /// Computes the output root at the current builder's latest block.
    /// Without a builder this fails with `MissingExecutor`, and with one it
    /// never does: what the builder returns is passed on as
    /// `builder_result` says.
    pub fn compute_output_root(&mut self) -> (r: Result<B256, ExecutorError<B::Error>>)
        ensures
            r matches Err(ExecutorError::MissingExecutor) <==> old(self).anchor() is None,
            final(self).anchor() == old(self).anchor(),
            final(self).builder() is Some <==> old(self).builder() is Some,
            final(self).config() == old(self).config(),
            old(self).anchor() is None ==> *final(self) == *old(self),
    {
        let mut current: Option<(B::Header, B)> = None;
        core::mem::swap(&mut self.current, &mut current);
        match current {
            None => Err(ExecutorError::MissingExecutor),
            Some((header, mut builder)) => {
                let result = builder.compute_output_root();
                self.current = Some((header, builder));
                Self::builder_result(result)
            },
        }
    }
}

} // verus!
