//! Contexts: named endpoints with a manager slot and a list of member processes.

use vstd::prelude::*;
use crate::defs::{ids_below, BinderError, Lens, ProcId};
use crate::lists::{remove_value, without};
use crate::node::NodeRef;

verus! {

/// The manager binding of a context and the processes that use the context.
pub struct Manager {
    /// The reference to the manager's node, while a manager is installed.
    pub node: Option<NodeRef>,
    /// The effective uid of whoever installed a manager first. It outlives
    /// the manager: a later one must come with the same uid.
    pub uid: Option<u32>,
    pub all_procs: Vec<ProcId>,
}

pub struct Context {
    pub name: Vec<u8>,
    pub manager: Manager,
}

/// A context as a mathematical value.
pub struct ContextView {
    pub name: Seq<u8>,
    pub node: Option<NodeRef>,
    pub uid: Option<u32>,
    pub all_procs: Seq<ProcId>,
}

impl View for Context {
    type V = ContextView;

    open spec fn view(&self) -> ContextView {
        ContextView {
            name: self.name@,
            node: self.manager.node,
            uid: self.manager.uid,
            all_procs: self.manager.all_procs@,
        }
    }
}

impl ContextView {
    /// Every object that the context names exists.
    pub open spec fn valid(self, l: Lens) -> bool {
        &&& ids_below(self.all_procs, l.procs)
        &&& self.node.is_some() ==> self.node.unwrap().node < l.nodes
    }

    /// A context without manager and without processes.
    pub open spec fn fresh(name: Seq<u8>) -> ContextView {
        ContextView { name, node: None, uid: None, all_procs: Seq::empty() }
    }

    /// What `set_manager_node` answers: `Busy` while a manager is installed;
    /// else what the security hook objected; else `Perm` when an earlier
    /// manager was installed under another uid.
    pub open spec fn set_manager_result(self, caller_euid: u32, hook: Option<BinderError>) -> Result<
        (),
        BinderError,
    > {
        if self.node.is_some() {
            Err(BinderError::Busy)
        } else if hook.is_some() {
            Err(hook.unwrap())
        } else if self.uid.is_some() && self.uid.unwrap() != caller_euid {
            Err(BinderError::Perm)
        } else {
            Ok(())
        }
    }

    /// The context after `set_manager_node`.
    pub open spec fn set_manager_node(
        self,
        node_ref: NodeRef,
        caller_euid: u32,
        hook: Option<BinderError>,
    ) -> ContextView {
        if self.set_manager_result(caller_euid, hook).is_ok() {
            ContextView { node: Some(node_ref), uid: Some(caller_euid), ..self }
        } else {
            self
        }
    }

    /// The context after `unset_manager_node`: the slot is empty, the
    /// recorded uid stays.
    pub open spec fn unset_manager_node(self) -> ContextView {
        ContextView { node: None, ..self }
    }

    /// Installing a manager twice answers `Busy` the second time, whoever
    /// calls. Once the manager is gone, the recorded uid still decides: a
    /// caller with another uid gets `Perm`, one with the same uid succeeds.
    pub proof fn lemma_manager_conflict(
        self,
        first: NodeRef,
        first_euid: u32,
        second_euid: u32,
        hook: Option<BinderError>,
    )
        requires
            self.set_manager_result(first_euid, None).is_ok(),
        ensures
            self.set_manager_node(first, first_euid, None).set_manager_result(second_euid, hook)
                == Err::<(), BinderError>(BinderError::Busy),
            second_euid != first_euid ==> self.set_manager_node(
                first,
                first_euid,
                None,
            ).unset_manager_node().set_manager_result(second_euid, None) == Err::<(), BinderError>(
                BinderError::Perm,
            ),
            self.set_manager_node(first, first_euid, None).unset_manager_node().set_manager_result(
                first_euid,
                None,
            ).is_ok(),
    {
    }

    /// Emptying the manager slot twice is the same as once.
    pub proof fn lemma_unset_idempotent(self)
        ensures
            self.unset_manager_node().unset_manager_node() == self.unset_manager_node(),
    {
    }
}

impl Context {
    pub fn new(name: Vec<u8>) -> (r: Self)
        ensures
            r@ == ContextView::fresh(name@),
    {
        Context { name, manager: Manager { node: None, uid: None, all_procs: Vec::new() } }
    }

    /// Adds a process to the members. Which context a process belongs to
    /// is known to the engine, not to the context: `Binder::register_process`
    /// tests it before it calls this.
    pub fn register_process(&mut self, process: ProcId)
        ensures
            final(self)@ == (ContextView {
                all_procs: old(self)@.all_procs.push(process),
                ..old(self)@
            }),
    {
        self.manager.all_procs.push(process);
    }

    /// Takes a process out of the members; a process that is no member is
    /// ignored. `Binder::deregister_process` first tests that the process
    /// belongs to this context.
    pub fn deregister_process(&mut self, process: ProcId)
        ensures
            final(self)@ == (ContextView {
                all_procs: without(old(self)@.all_procs, process),
                ..old(self)@
            }),
    {
        remove_value(&mut self.manager.all_procs, process);
    }

    /// Installs the manager. `hook` is the objection of the security hook,
    /// if it had one. On failure nothing changes and the reference comes back.
    pub fn set_manager_node(
        &mut self,
        node_ref: NodeRef,
        caller_euid: u32,
        hook: Option<BinderError>,
    ) -> (r: Result<(), (BinderError, NodeRef)>)
        ensures
            final(self)@ == old(self)@.set_manager_node(node_ref, caller_euid, hook),
            match old(self)@.set_manager_result(caller_euid, hook) {
                Ok(()) => r.is_ok(),
                Err(e) => r == Err::<(), (BinderError, NodeRef)>((e, node_ref)),
            },
    {
        if self.manager.node.is_some() {
            return Err((BinderError::Busy, node_ref));
        }
        match hook {
            Some(e) => {
                return Err((e, node_ref));
            },
            None => {},
        }
        match self.manager.uid {
            Some(uid) => {
                if uid != caller_euid {
                    return Err((BinderError::Perm, node_ref));
                }
            },
            None => {},
        }
        self.manager.node = Some(node_ref);
        self.manager.uid = Some(caller_euid);
        Ok(())
    }

    /// Empties the manager slot and returns the reference that was in it,
    /// for the caller to release.
    pub fn unset_manager_node(&mut self) -> (r: Option<NodeRef>)
        ensures
            r == old(self)@.node,
            final(self)@ == old(self)@.unset_manager_node(),
    {
        self.manager.node.take()
    }
}

} // verus!
