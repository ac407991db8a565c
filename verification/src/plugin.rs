//! Plugins the proxy can be extended with, kept in registration order.
use vstd::prelude::*;

use std::sync::Arc;

verus! {

/// An extension of the proxy; a plugin is known by its name.
pub trait Plugin: Send + Sync {
    /// The plugin's name.
    fn name(&self) -> &str;
}

/// The plugins registered so far, in order; `P` is the plugin type
/// (`dyn Plugin` for a mixed set).
pub struct PluginRegistry<P: ?Sized> {
    plugins: Vec<Arc<P>>,
}

impl<P: ?Sized> PluginRegistry<P> {
    /// The plugins registered, in order.
    pub closed spec fn plugins(&self) -> Seq<Arc<P>> {
        self.plugins@
    }

    /// How many plugins are registered.
    pub open spec fn count(&self) -> nat {
        self.plugins().len()
    }

    /// An empty registry.
    pub fn new() -> (r: Self)
        ensures
            r.plugins() == Seq::<Arc<P>>::empty(),
    {
        PluginRegistry { plugins: Vec::new() }
    }

    /// Adds a plugin after the others.
    pub fn register(&mut self, plugin: Arc<P>)
        ensures
            final(self).plugins() == old(self).plugins().push(plugin),
    {
        self.plugins.push(plugin);
    }

    /// The plugins, in registration order.
    pub fn iter(&self) -> (r: &[Arc<P>])
        ensures
            r@ == self.plugins(),
    {
        self.plugins.as_slice()
    }

    /// Whether no plugin is registered.
    pub fn is_empty(&self) -> (r: bool)
        ensures
            r == (self.count() == 0),
    {
        self.plugins.len() == 0
    }
}

} // verus!
