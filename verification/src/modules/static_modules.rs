//! Modules linked into the binary: a handle holds their entry points.
use vstd::prelude::*;
use crate::modules::{EosModuleConfig, EosModuleFnTypes};

verus! {

/// A module linked into the binary, with the entry points that `F` types.
pub struct EosModuleStatic<F: EosModuleFnTypes> {
    pub config: EosModuleConfig,
    module_init: F::FnModuleInit,
    objekt_add: F::FnObjektAdd,
    objekt_get: F::FnObjektGet,
    objekt_get_invocations: F::FnObjektGetInvocations,
    objekt_remove: F::FnObjektRemove,
    objekt_remove_all: F::FnObjektRemoveAll,
    objekts_len: F::FnObjektsLen,
    objekts_get_keys: F::FnObjektsGetKeys,
}

impl<F: EosModuleFnTypes> EosModuleStatic<F> {
    pub closed spec fn config_name(&self) -> Seq<char> {
        self.config.name@
    }

    pub closed spec fn spec_module_init(&self) -> F::FnModuleInit {
        self.module_init
    }

    pub closed spec fn spec_objekt_add(&self) -> F::FnObjektAdd {
        self.objekt_add
    }

    pub closed spec fn spec_objekt_get(&self) -> F::FnObjektGet {
        self.objekt_get
    }

    pub closed spec fn spec_objekt_get_invocations(&self) -> F::FnObjektGetInvocations {
        self.objekt_get_invocations
    }

    pub closed spec fn spec_objekt_remove(&self) -> F::FnObjektRemove {
        self.objekt_remove
    }

    pub closed spec fn spec_objekt_remove_all(&self) -> F::FnObjektRemoveAll {
        self.objekt_remove_all
    }

    pub closed spec fn spec_objekts_len(&self) -> F::FnObjektsLen {
        self.objekts_len
    }

    pub closed spec fn spec_objekts_get_keys(&self) -> F::FnObjektsGetKeys {
        self.objekts_get_keys
    }

    /// A handle on the module with the given entry points, configured under
    /// the name `default`.
    pub fn new(
        module_init: F::FnModuleInit,
        objekt_add: F::FnObjektAdd,
        objekt_get: F::FnObjektGet,
        objekt_get_invocations: F::FnObjektGetInvocations,
        objekt_remove: F::FnObjektRemove,
        objekt_remove_all: F::FnObjektRemoveAll,
        objekts_len: F::FnObjektsLen,
        objekts_get_keys: F::FnObjektsGetKeys,
    ) -> (r: Self)
        ensures
            r.config_name() == "default"@,
            r.spec_module_init() == module_init,
            r.spec_objekt_add() == objekt_add,
            r.spec_objekt_get() == objekt_get,
            r.spec_objekt_get_invocations() == objekt_get_invocations,
            r.spec_objekt_remove() == objekt_remove,
            r.spec_objekt_remove_all() == objekt_remove_all,
            r.spec_objekts_len() == objekts_len,
            r.spec_objekts_get_keys() == objekts_get_keys,
    {
        Self {
            config: EosModuleConfig { name: String::from_str("default") },
            module_init,
            objekt_add,
            objekt_get,
            objekt_get_invocations,
            objekt_remove,
            objekt_remove_all,
            objekts_len,
            objekts_get_keys,
        }
    }

    pub fn module_init(&self) -> (r: &F::FnModuleInit)
        ensures
            *r == self.spec_module_init(),
    {
        &self.module_init
    }

    pub fn objekt_add(&self) -> (r: &F::FnObjektAdd)
        ensures
            *r == self.spec_objekt_add(),
    {
        &self.objekt_add
    }

    pub fn objekt_get(&self) -> (r: &F::FnObjektGet)
        ensures
            *r == self.spec_objekt_get(),
    {
        &self.objekt_get
    }

    pub fn objekt_get_invocations(&self) -> (r: &F::FnObjektGetInvocations)
        ensures
            *r == self.spec_objekt_get_invocations(),
    {
        &self.objekt_get_invocations
    }

    pub fn objekt_remove(&self) -> (r: &F::FnObjektRemove)
        ensures
            *r == self.spec_objekt_remove(),
    {
        &self.objekt_remove
    }

    pub fn objekt_remove_all(&self) -> (r: &F::FnObjektRemoveAll)
        ensures
            *r == self.spec_objekt_remove_all(),
    {
        &self.objekt_remove_all
    }

    pub fn objekts_len(&self) -> (r: &F::FnObjektsLen)
        ensures
            *r == self.spec_objekts_len(),
    {
        &self.objekts_len
    }

    pub fn objekts_get_keys(&self) -> (r: &F::FnObjektsGetKeys)
        ensures
            *r == self.spec_objekts_get_keys(),
    {
        &self.objekts_get_keys
    }
}

} // verus!
