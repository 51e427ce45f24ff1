//! Plugins: uniform wrappers around operation handlers.
//!
//! A plugin takes a handler and gives back a handler of the same input and
//! output types, so that neither the router nor the route table can tell
//! whether a handler was wrapped. Plugins are stacked; stacking is
//! associative and has the identity plugin as its unit.

use vstd::prelude::*;

use crate::runtime_error::RuntimeError;

verus! {

/// An operation handler: typed input to typed output, or a runtime error.
/// What a handler does is the service's business and is not specified here.
pub trait Handler {
    type Input;

    type Output;

    /// Handles one request.
    fn call(&self, input: Self::Input) -> Result<Self::Output, RuntimeError>;
}

/// A wrapper around the handlers of type `H`.
///
/// What is proved of a plugin rests on its `wrapped` saying what its `apply`
/// does; for a plugin written outside verified code that is taken on trust.
pub trait Plugin<H: Handler> {
    /// The wrapped handler; its input and output types are those of `H`.
    type Wrapped: Handler<Input = H::Input, Output = H::Output>;

    /// The handler that wrapping `inner` gives. A plugin that does not say
    /// leaves it unspecified.
    open spec fn wrapped(&self, inner: H) -> Self::Wrapped {
        arbitrary()
    }

    /// Wraps `inner`.
    fn apply(&self, inner: H) -> (handler: Self::Wrapped)
        ensures
            handler == self.wrapped(inner),
    ;
}

/// The plugin that leaves every handler as it is.
#[derive(Clone, Copy, Debug)]
pub struct IdentityPlugin;

impl<H: Handler> Plugin<H> for IdentityPlugin {
    type Wrapped = H;

    open spec fn wrapped(&self, inner: H) -> H {
        inner
    }

    fn apply(&self, inner: H) -> (handler: H) {
        inner
    }
}

/// Two plugins, one applied after the other: `inner` first, `outer` around
/// the result.
#[derive(Clone, Copy, Debug)]
pub struct PluginStack<Inner, Outer> {
    pub inner: Inner,
    pub outer: Outer,
}

impl<H: Handler, Inner: Plugin<H>, Outer: Plugin<Inner::Wrapped>> Plugin<H> for PluginStack<
    Inner,
    Outer,
> {
    type Wrapped = Outer::Wrapped;

    open spec fn wrapped(&self, inner: H) -> Outer::Wrapped {
        self.outer.wrapped(self.inner.wrapped(inner))
    }

    fn apply(&self, inner: H) -> (handler: Outer::Wrapped) {
        self.outer.apply(self.inner.apply(inner))
    }
}

/// Stacks `outer` on `inner`.
pub fn stack<Inner, Outer>(inner: Inner, outer: Outer) -> (stacked: PluginStack<Inner, Outer>)
    ensures
        stacked == (PluginStack { inner, outer }),
{
    PluginStack { inner, outer }
}

/// Stacking is associative: however three plugins are grouped, every
/// handler is wrapped alike.
pub proof fn lemma_stack_associative<H, A, B, C>(a: A, b: B, c: C, handler: H)
    where
        H: Handler,
        A: Plugin<H>,
        B: Plugin<A::Wrapped>,
        C: Plugin<B::Wrapped>,
    ensures
        (PluginStack { inner: PluginStack { inner: a, outer: b }, outer: c }).wrapped(handler)
            == (PluginStack { inner: a, outer: PluginStack { inner: b, outer: c } }).wrapped(
            handler,
        ),
{
}

/// The identity plugin is the unit of stacking on either side.
pub proof fn lemma_stack_identity<H, P>(plugin: P, handler: H)
    where
        H: Handler,
        P: Plugin<H>,
    ensures
        (PluginStack { inner: IdentityPlugin, outer: plugin }).wrapped(handler) == plugin.wrapped(
            handler,
        ),
        (PluginStack { inner: plugin, outer: IdentityPlugin }).wrapped(handler) == plugin.wrapped(
            handler,
        ),
{
}

} // verus!
