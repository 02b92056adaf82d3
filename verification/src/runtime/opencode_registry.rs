//! The bookkeeping of the OpenCode adapter: which ports its `opencode
//! serve` instances get, which handles they are known by, and what is
//! remembered of each (working directory, the ecosystem task it was
//! launched for). Spawning, signalling and waiting on the processes is the
//! caller's part.

use vstd::prelude::*;
use crate::runtime::adapter::AdapterError;
use crate::runtime::events::{ostr, otask};
use crate::runtime::keyed::{
    distinct_keys, find_key, keyed, lemma_keyed_empty, lemma_keyed_push, lemma_keyed_remove,
};
use crate::runtime::types::{Identity, RuntimeHandle, Status, TaskId, Workspace};
use crate::text::{dec, lemma_dec_injective, push_decimal, push_str};

verus! {

/// The first port handed out, far from the shared service's and from
/// well-known ones.
pub const FIRST_PORT: u16 = 39901;

/// What is remembered of one instance besides its process.
#[derive(Debug)]
pub struct InstanceInfo {
    pub cwd: String,
    /// The ecosystem task the instance was launched for; never a
    /// runtime-internal session id.
    pub task_id: Option<TaskId>,
}

/// The text of the handle issued by the `n`-th recorded launch.
pub open spec fn opencode_name(n: nat) -> Seq<char> {
    "opencode-"@ + dec(n)
}

/// Distinct launches get distinct handles.
pub proof fn law_opencode_handles_never_repeat(a: nat, b: nat)
    ensures
        opencode_name(a) == opencode_name(b) ==> a == b,
{
    reveal_strlit("opencode-");
    if opencode_name(a) == opencode_name(b) {
        assert(dec(a) =~= opencode_name(a).subrange(9, opencode_name(a).len() as int));
        assert(dec(b) =~= opencode_name(b).subrange(9, opencode_name(b).len() as int));
        lemma_dec_injective(a, b);
    }
}

#[derive(Debug)]
pub struct OpenCodeRegistry {
    instances: Vec<(RuntimeHandle, InstanceInfo)>,
    next_id: u64,
    next_port: u16,
}

impl OpenCodeRegistry {
    #[verifier::type_invariant]
    spec fn inv(self) -> bool {
        &&& distinct_keys(self.instances@)
        &&& forall|k: Seq<char>|
            #[trigger] keyed(self.instances@).dom().contains(k) ==> exists|n: nat|
                1 <= n <= self.next_id && k == #[trigger] opencode_name(n)
    }

    /// Every live instance, by handle text: its working directory and task.
    pub closed spec fn instances(&self) -> Map<Seq<char>, (Seq<char>, Option<Seq<char>>)> {
        keyed(self.instances@).map_values(|i: InstanceInfo| (i.cwd@, otask(i.task_id)))
    }

    /// How many launches have been recorded.
    pub closed spec fn launched(&self) -> u64 {
        self.next_id
    }

    /// The port the next launch gets.
    pub closed spec fn port(&self) -> u16 {
        self.next_port
    }

    /// No instances, no launches, ports from `FIRST_PORT` on.
    pub fn new() -> (r: OpenCodeRegistry)
        ensures
            r.instances() == Map::<Seq<char>, (Seq<char>, Option<Seq<char>>)>::empty(),
            r.launched() == 0,
            r.port() == FIRST_PORT,
    {
        let instances: Vec<(RuntimeHandle, InstanceInfo)> = Vec::new();
        proof {
            lemma_keyed_empty(instances@);
        }
        let r = OpenCodeRegistry { instances, next_id: 0, next_port: FIRST_PORT };
        assert(r.instances() =~= Map::<Seq<char>, (Seq<char>, Option<Seq<char>>)>::empty());
        r
    }

    /// Hands out the port for a launch about to be tried; the port is used
    /// up whether or not the launch then succeeds. When every port has been
    /// handed out there is none left.
    pub fn claim_port(&mut self) -> (r: Result<u16, AdapterError>)
        ensures
            old(self).port() < u16::MAX ==> r == Ok::<u16, AdapterError>(old(self).port())
                && final(self).port() == old(self).port() + 1,
            old(self).port() == u16::MAX ==> (r matches Err(AdapterError::LaunchFailed(m)) && m@
                == "no ports left"@ && final(self).port() == old(self).port()),
            final(self).instances() == old(self).instances(),
            final(self).launched() == old(self).launched(),
    {
        proof {
            use_type_invariant(&*self);
        }
        if self.next_port == u16::MAX {
            return Err(AdapterError::LaunchFailed(String::from_str("no ports left")));
        }
        let port = self.next_port;
        self.next_port = port + 1;
        Ok(port)
    }

    /// Records a launch whose process started: a fresh handle
    /// `opencode-<n>`, remembered with its working directory and task.
    pub fn record_launch(&mut self, cwd: &str, task: Option<TaskId>) -> (r: Result<
        RuntimeHandle,
        AdapterError,
    >)
        ensures
            old(self).launched() < u64::MAX ==> (match r {
                Ok(h) => {
                    &&& h@ == opencode_name((old(self).launched() + 1) as nat)
                    &&& !old(self).instances().dom().contains(h@)
                    &&& final(self).instances() == old(self).instances().insert(
                        h@,
                        (cwd@, otask(task)),
                    )
                    &&& final(self).launched() == old(self).launched() + 1
                    &&& final(self).port() == old(self).port()
                },
                Err(_) => false,
            }),
            old(self).launched() == u64::MAX ==> (r matches Err(AdapterError::LaunchFailed(m))
                && m@ == "no handle numbers left"@ && final(self).instances() == old(
                self,
            ).instances() && final(self).launched() == old(self).launched() && final(self).port()
                == old(self).port()),
    {
        proof {
            use_type_invariant(&*self);
        }
        if self.next_id == u64::MAX {
            return Err(AdapterError::LaunchFailed(String::from_str("no handle numbers left")));
        }
        let n: u64 = self.next_id + 1;
        let mut name = String::new();
        push_str(&mut name, "opencode-");
        push_decimal(&mut name, n);
        let handle = RuntimeHandle::from_string(name);
        assert(handle@ =~= opencode_name(n as nat));
        let mut cur = OpenCodeRegistry::new();
        std::mem::swap(self, &mut cur);
        proof {
            use_type_invariant(&cur);
        }
        let OpenCodeRegistry { mut instances, next_id, next_port } = cur;
        proof {
            if keyed(instances@).dom().contains(handle@) {
                let m = choose|m: nat| 1 <= m <= next_id && handle@ == #[trigger] opencode_name(m);
                law_opencode_handles_never_repeat(m, n as nat);
            }
        }
        let info = InstanceInfo { cwd: String::from_str(cwd), task_id: task };
        let key = handle.duplicate();
        proof {
            lemma_keyed_push(instances@, (key, info));
        }
        instances.push((key, info));
        proof {
            assert forall|k: Seq<char>| #[trigger] keyed(instances@).dom().contains(k) implies exists|
                m: nat,
            | 1 <= m <= n && k == #[trigger] opencode_name(m) by {
                if k == handle@ {
                    assert(k == opencode_name(n as nat));
                } else {
                    let m = choose|m: nat| 1 <= m <= next_id && k == #[trigger] opencode_name(m);
                    assert(k == opencode_name(m));
                }
            }
        }
        *self = OpenCodeRegistry { instances, next_id: n, next_port };
        proof {
            assert(self.instances() =~= old(self).instances().insert(
                handle@,
                (info.cwd@, otask(info.task_id)),
            ));
        }
        Ok(handle)
    }

    /// What is remembered of `handle`'s instance.
    pub fn lookup(&self, handle: &RuntimeHandle) -> (r: Result<&InstanceInfo, AdapterError>)
        ensures
            self.instances().dom().contains(handle@) ==> (r matches Ok(i) && (i.cwd@, otask(
                i.task_id,
            )) == self.instances()[handle@]),
            !self.instances().dom().contains(handle@) ==> r == Err::<&InstanceInfo, AdapterError>(
                AdapterError::NotFound,
            ),
    {
        proof {
            use_type_invariant(self);
        }
        match find_key(&self.instances, handle) {
            Some(i) => Ok(&self.instances[i].1),
            None => Err(AdapterError::NotFound),
        }
    }

    /// The identity of `handle`'s instance: only the task it was launched
    /// for is known.
    pub fn identity(&self, handle: &RuntimeHandle) -> (r: Result<Identity, AdapterError>)
        ensures
            self.instances().dom().contains(handle@) ==> (r matches Ok(id) && id.model is None
                && id.role is None && id.repository is None && id.instance is None && ostr(id.task)
                == self.instances()[handle@].1),
            !self.instances().dom().contains(handle@) ==> r == Err::<Identity, AdapterError>(
                AdapterError::NotFound,
            ),
    {
        let info = self.lookup(handle)?;
        let mut identity = Identity::empty();
        identity.task = match &info.task_id {
            Some(t) => Some(String::from_str(t.as_str())),
            None => None,
        };
        Ok(identity)
    }

    /// The workspace of `handle`'s instance: its working directory, with no
    /// repository association.
    pub fn workspace(&self, handle: &RuntimeHandle) -> (r: Result<Workspace, AdapterError>)
        ensures
            self.instances().dom().contains(handle@) ==> (r matches Ok(w) && ostr(w.cwd) == Some(
                self.instances()[handle@].0,
            ) && w.repo_association is None),
            !self.instances().dom().contains(handle@) ==> r == Err::<Workspace, AdapterError>(
                AdapterError::NotFound,
            ),
    {
        let info = self.lookup(handle)?;
        Ok(Workspace { cwd: Some(String::from_str(info.cwd.as_str())), repo_association: None })
    }

    /// Forgets `handle`'s instance once its process has exited.
    pub fn forget(&mut self, handle: &RuntimeHandle) -> (r: Result<(), AdapterError>)
        ensures
            old(self).instances().dom().contains(handle@) ==> r is Ok && final(self).instances()
                == old(self).instances().remove(handle@),
            !old(self).instances().dom().contains(handle@) ==> r == Err::<(), AdapterError>(
                AdapterError::NotFound,
            ) && final(self).instances() == old(self).instances(),
            final(self).launched() == old(self).launched(),
            final(self).port() == old(self).port(),
    {
        proof {
            use_type_invariant(&*self);
        }
        let mut cur = OpenCodeRegistry::new();
        std::mem::swap(self, &mut cur);
        proof {
            use_type_invariant(&cur);
        }
        let OpenCodeRegistry { mut instances, next_id, next_port } = cur;
        let found = find_key(&instances, handle);
        let r = match found {
            Some(i) => {
                proof {
                    lemma_keyed_remove(instances@, i as int);
                }
                let ghost before = instances@;
                instances.remove(i);
                proof {
                    assert(instances@ =~= before.remove(i as int));
                    assert forall|k: Seq<char>| #[trigger] keyed(instances@).dom().contains(
                        k,
                    ) implies exists|m: nat| 1 <= m <= next_id && k == #[trigger] opencode_name(m) by {
                        assert(keyed(before).dom().contains(k));
                    }
                }
                Ok(())
            },
            None => Err(AdapterError::NotFound),
        };
        *self = OpenCodeRegistry { instances, next_id, next_port };
        proof {
            if found is Some {
                assert(self.instances() =~= old(self).instances().remove(handle@));
            }
        }
        r
    }
}

/// The status of an instance from whether its process is still alive.
pub fn liveness_status(alive: bool) -> (s: Status)
    ensures
        s == if alive {
            Status::Fresh
        } else {
            Status::Orphaned
        },
{
    if alive {
        Status::Fresh
    } else {
        Status::Orphaned
    }
}

} // verus!
