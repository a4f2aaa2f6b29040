//! Modules: the units of code that provide objekts and their invocations.
pub mod dynamic_modules;
pub mod static_modules;

use vstd::prelude::*;

verus! {

/// The configuration of a module.
#[derive(Debug)]
pub struct EosModuleConfig {
    pub name: String,
}

/// The types of the entry points a module exports.
pub trait EosModuleFnTypes {
    type FnModuleInit;
    type FnObjektAdd;
    type FnObjektGet;
    type FnObjektGetInvocations;
    type FnObjektRemove;
    type FnObjektRemoveAll;
    type FnObjektsGetKeys;
    type FnObjektsLen;
}

} // verus!
