//! Transformers that run a Lua script on each transaction.
use vstd::prelude::*;

verus! {

/// A transformer that runs a Lua script on each transaction.
pub struct LuaTransformer {
    name: String,
    script: String,
}

impl LuaTransformer {
    pub closed spec fn spec_name(self) -> Seq<char> {
        self.name@
    }

    pub closed spec fn spec_script(self) -> Seq<char> {
        self.script@
    }

    /// The transformer called `name` that runs `script`.
    pub fn new(name: String, script: String) -> (t: Self)
        ensures
            t.spec_name() == name@,
            t.spec_script() == script@,
    {
        LuaTransformer { name, script }
    }

    pub fn name(&self) -> (r: &str)
        ensures
            r@ == self.spec_name(),
    {
        self.name.as_str()
    }

    /// The Lua source the transformer runs.
    pub fn script(&self) -> (r: &str)
        ensures
            r@ == self.spec_script(),
    {
        self.script.as_str()
    }
}

} // verus!
