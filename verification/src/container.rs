//! Lightweight containers: an id, a run state and a memory region each,
//! kept in creation order.
use vstd::prelude::*;

verus! {

#[derive(PartialEq, Eq, Structural, Clone, Copy, Debug)]
pub enum ContainerState {
    Running,
    Stopped,
}

/// A container: its id, state, memory region (start, length in bytes) and name.
pub struct Container {
    pub id: u32,
    pub state: ContainerState,
    pub memory_region: (u64, u64),
    pub name: &'static str,
}

/// The index of the first container with id `id`.
pub open spec fn first_with_id(s: Seq<Container>, id: u32) -> Option<int>
    decreases s.len(),
{
    if s.len() == 0 {
        None
    } else if s.last().id == id && first_with_id(s.drop_last(), id) is None {
        Some(s.len() - 1)
    } else {
        first_with_id(s.drop_last(), id)
    }
}

/// Whether `addr` lies in the memory region of container `c`.
pub open spec fn in_region(c: Container, addr: u64) -> bool {
    c.memory_region.0 <= addr < c.memory_region.0 + c.memory_region.1
}

/// The index of the first container whose region holds `addr`.
pub open spec fn first_holding(s: Seq<Container>, addr: u64) -> Option<int>
    decreases s.len(),
{
    if s.len() == 0 {
        None
    } else if in_region(s.last(), addr) && first_holding(s.drop_last(), addr) is None {
        Some(s.len() - 1)
    } else {
        first_holding(s.drop_last(), addr)
    }
}

pub proof fn lemma_first_with_id(s: Seq<Container>, id: u32)
    ensures
        match first_with_id(s, id) {
            Some(i) => 0 <= i < s.len() && s[i].id == id && forall|j: int| 0 <= j < i ==> s[j].id != id,
            None => forall|j: int| 0 <= j < s.len() ==> s[j].id != id,
        },
    decreases s.len(),
{
    if s.len() > 0 {
        let t = s.drop_last();
        lemma_first_with_id(t, id);
        assert(forall|j: int| 0 <= j < t.len() ==> t[j] == s[j]);
    }
}

pub proof fn lemma_first_holding(s: Seq<Container>, addr: u64)
    ensures
        match first_holding(s, addr) {
            Some(i) => 0 <= i < s.len() && in_region(s[i], addr) && forall|j: int| 0 <= j < i ==> !in_region(s[j], addr),
            None => forall|j: int| 0 <= j < s.len() ==> !in_region(s[j], addr),
        },
    decreases s.len(),
{
    if s.len() > 0 {
        let t = s.drop_last();
        lemma_first_holding(t, addr);
        assert(forall|j: int| 0 <= j < t.len() ==> t[j] == s[j]);
    }
}

/// The containers, once the registry is initialised, and the next id to hand out.
pub struct ContainerRegistry {
    pub containers: Option<Vec<Container>>,
    pub next_id: u32,
}

impl ContainerRegistry {
    /// The containers in creation order; none before `init`.
    pub open spec fn view(&self) -> Seq<Container> {
        match self.containers {
            Some(v) => v@,
            None => Seq::empty(),
        }
    }

    /// Whether every region's end fits in 64 bits.
    pub open spec fn regions_fit(&self) -> bool {
        forall|j: int| 0 <= j < self@.len() ==> self@[j].memory_region.0 + self@[j].memory_region.1 <= u64::MAX
    }

    /// Whether every id handed out is below the next one.
    pub open spec fn ids_below_next(&self) -> bool {
        forall|j: int| 0 <= j < self@.len() ==> self@[j].id < self.next_id
    }

    /// A registry before `init`: no container list, next id 1.
    pub fn new() -> (r: Self)
        ensures
            r.containers is None,
            r.next_id == 1,
            r@.len() == 0,
    {
        ContainerRegistry { containers: None, next_id: 1 }
    }

    /// Starts an empty container list and restarts ids at 1.
    pub fn init(&mut self)
        ensures
            final(self).containers is Some,
            final(self)@.len() == 0,
            final(self).next_id == 1,
    {
        self.containers = Some(Vec::new());
        self.next_id = 1;
    }

    /// Hands out the next id for a running container over `mem_pages` pages
    /// from `mem_start`, recorded when the list is initialised.
    pub fn create_container(&mut self, mem_start: u64, mem_pages: u64, name: &'static str) -> (id: u32)
        requires
            old(self).next_id < u32::MAX,
            mem_pages * 4096 <= u64::MAX,
        ensures
            id == old(self).next_id,
            final(self).next_id == old(self).next_id + 1,
            final(self).containers is Some == old(self).containers is Some,
            final(self)@ == if old(self).containers is Some {
                old(self)@.push(Container { id, state: ContainerState::Running, memory_region: (mem_start, (mem_pages * 4096) as u64), name })
            } else {
                old(self)@
            },
    {
        let id = self.next_id;
        self.next_id = self.next_id + 1;
        let container = Container { id, state: ContainerState::Running, memory_region: (mem_start, mem_pages * 4096), name };
        match &mut self.containers {
            Some(v) => {
                v.push(container);
            },
            None => {},
        }
        id
    }

    /// Marks the first container with id `id` stopped.
    pub fn stop_container(&mut self, id: u32)
        ensures
            final(self).next_id == old(self).next_id,
            final(self).containers is Some == old(self).containers is Some,
            final(self)@ == match first_with_id(old(self)@, id) {
                Some(i) => old(self)@.update(i, Container { state: ContainerState::Stopped, ..old(self)@[i] }),
                None => old(self)@,
            },
    {
        match self.find_index(id) {
            Some(i) => {
                match &mut self.containers {
                    Some(v) => {
                        let c = Container { state: ContainerState::Stopped, id: v[i].id, memory_region: v[i].memory_region, name: v[i].name };
                        v.set(i, c);
                    },
                    None => {},
                }
            },
            None => {},
        }
    }

    /// The state of the first container with id `id`.
    pub fn get_container_state(&self, id: u32) -> (r: Option<ContainerState>)
        ensures
            r == match first_with_id(self@, id) {
                Some(i) => Some(self@[i].state),
                None => None,
            },
    {
        match self.find_index(id) {
            Some(i) => Some(self.containers.as_ref().unwrap()[i].state),
            None => None,
        }
    }

    /// The start of the memory region of the first container with id `id`.
    pub fn get_container_mem(&self, id: u32) -> (r: Option<u64>)
        ensures
            r == match first_with_id(self@, id) {
                Some(i) => Some(self@[i].memory_region.0),
                None => None,
            },
    {
        match self.find_index(id) {
            Some(i) => Some(self.containers.as_ref().unwrap()[i].memory_region.0),
            None => None,
        }
    }

    fn find_index(&self, id: u32) -> (r: Option<usize>)
        ensures
            r matches Some(i) ==> self.containers is Some && first_with_id(self@, id) == Some(i as int)
                && i < self@.len(),
            r is None ==> first_with_id(self@, id) is None,
    {
        proof {
            lemma_first_with_id(self@, id);
        }
        match &self.containers {
            Some(v) => {
                let mut i: usize = 0;
                while i < v.len()
                    invariant
                        i <= v@.len(),
                        v@ == self@,
                        forall|j: int| 0 <= j < i ==> v@[j].id != id,
                    decreases v@.len() - i,
                {
                    if v[i].id == id {
                        proof {
                            lemma_first_with_id(v@, id);
                            match first_with_id(v@, id) {
                                Some(k) => {
                                    assert(!(k < i));
                                    assert(!(k > i));
                                },
                                None => {},
                            }
                        }
                        return Some(i);
                    }
                    i = i + 1;
                }
                None
            },
            None => None,
        }
    }

    fn find_holding(&self, addr: u64) -> (r: Option<usize>)
        requires
            self.regions_fit(),
        ensures
            r matches Some(i) ==> self.containers is Some && first_holding(self@, addr) == Some(i as int)
                && i < self@.len(),
            r is None ==> first_holding(self@, addr) is None,
    {
        proof {
            lemma_first_holding(self@, addr);
        }
        match &self.containers {
            Some(v) => {
                let mut i: usize = 0;
                while i < v.len()
                    invariant
                        i <= v@.len(),
                        v@ == self@,
                        self.regions_fit(),
                        forall|j: int| 0 <= j < i ==> !in_region(v@[j], addr),
                    decreases v@.len() - i,
                {
                    let start = v[i].memory_region.0;
                    let end = start + v[i].memory_region.1;
                    if addr >= start && addr < end {
                        proof {
                            lemma_first_holding(v@, addr);
                            match first_holding(v@, addr) {
                                Some(k) => {
                                    assert(!(k < i));
                                    assert(!(k > i));
                                },
                                None => {},
                            }
                        }
                        return Some(i);
                    }
                    i = i + 1;
                }
                None
            },
            None => None,
        }
    }

    /// Whether `addr` lies in the memory region of some container.
    pub fn is_in_container_memory(&self, addr: u64) -> (r: bool)
        requires
            self.regions_fit(),
        ensures
            r == exists|j: int| 0 <= j < self@.len() && in_region(self@[j], addr),
    {
        proof {
            lemma_first_holding(self@, addr);
        }
        match self.find_holding(addr) {
            Some(i) => {
                assert(in_region(self@[i as int], addr));
                true
            },
            None => false,
        }
    }

    /// The id of the first container whose memory region holds `addr`.
    pub fn find_container_by_addr(&self, addr: u64) -> (r: Option<u32>)
        requires
            self.regions_fit(),
        ensures
            r == match first_holding(self@, addr) {
                Some(i) => Some(self@[i].id),
                None => None,
            },
    {
        match self.find_holding(addr) {
            Some(i) => Some(self.containers.as_ref().unwrap()[i].id),
            None => None,
        }
    }
}


/// A future run inside a container: it ends as soon as its container is stopped.
pub struct ContainerFuture<F> {
    pub future: F,
    pub container_id: u32,
}

/// Wraps `future` to run inside container `container_id`.
pub fn run_in_container<F>(container_id: u32, future: F) -> (c: ContainerFuture<F>)
    ensures
        c.container_id == container_id,
        c.future == future,
{
    ContainerFuture { future, container_id }
}

impl<F> ContainerFuture<F> {
    /// Whether a poll ends at once, without polling the inner future: the
    /// container reads back as stopped.
    pub fn stopped(&self, registry: &ContainerRegistry) -> (r: bool)
        ensures
            r == (match first_with_id(registry@, self.container_id) {
                Some(i) => registry@[i].state == ContainerState::Stopped,
                None => false,
            }),
    {
        match registry.get_container_state(self.container_id) {
            Some(ContainerState::Stopped) => true,
            _ => false,
        }
    }
}

/// A container created in an initialised registry whose ids are all below
/// the next one reads back as running; once stopped, it reads back as stopped.
pub proof fn law_create_then_state(s: Seq<Container>, next_id: u32, c: Container)
    requires
        forall|j: int| 0 <= j < s.len() ==> s[j].id < next_id,
        c.id == next_id,
        c.state == ContainerState::Running,
    ensures
        first_with_id(s.push(c), next_id) == Some(s.len() as int),
        s.push(c)[s.len() as int].state == ContainerState::Running,
        ({
            let t = s.push(c).update(s.len() as int, Container { state: ContainerState::Stopped, ..c });
            first_with_id(t, next_id) matches Some(i) && t[i].state == ContainerState::Stopped
        }),
{
    lemma_first_with_id(s, next_id);
    assert(s.push(c).drop_last() =~= s);
    let t = s.push(c).update(s.len() as int, Container { state: ContainerState::Stopped, ..c });
    assert(t.drop_last() =~= s);
}

/// An address is in some container's memory exactly when a container is found for it.
pub proof fn law_in_memory_iff_found(s: Seq<Container>, addr: u64)
    ensures
        (exists|j: int| 0 <= j < s.len() && in_region(s[j], addr)) <==> first_holding(s, addr) is Some,
{
    lemma_first_holding(s, addr);
}

/// Whether the containers carry ids 1, 2, 3, ... in the order they were created.
pub open spec fn ids_count_up(s: Seq<Container>) -> bool {
    forall|j: int| 0 <= j < s.len() ==> #[trigger] s[j].id == j + 1
}

/// Ids count creations: `init` leaves an empty list with next id 1, and
/// from a list whose ids count up to its next id, a creation hands out
/// the id one past the list's length and keeps the ids counting up, so the
/// k-th container created after `init` gets id k and ids are distinct and
/// increasing.
pub proof fn law_ids_count_creations(s: Seq<Container>, next_id: u32, c: Container)
    requires
        ids_count_up(s),
        next_id == s.len() + 1,
        c.id == next_id,
    ensures
        ids_count_up(Seq::<Container>::empty()),
        c.id == s.len() + 1,
        ids_count_up(s.push(c)),
        next_id + 1 == s.push(c).len() + 1,
        forall|i: int, j: int| 0 <= i < j < s.push(c).len() ==> s.push(c)[i].id < s.push(c)[j].id,
{
    assert forall|j: int| 0 <= j < s.push(c).len() implies #[trigger] s.push(c)[j].id == j + 1 by {
        if j < s.len() {
            assert(s.push(c)[j] == s[j]);
        }
    }
}

/// The container list after `init` and one creation per request of `reqs`
/// (memory start, pages, name), in order.
pub open spec fn registry_after(reqs: Seq<(u64, u64, &'static str)>) -> Seq<Container>
    decreases reqs.len(),
{
    if reqs.len() == 0 {
        Seq::empty()
    } else {
        let r = reqs.last();
        registry_after(reqs.drop_last()).push(Container {
            id: reqs.len() as u32,
            state: ContainerState::Running,
            memory_region: (r.0, (r.1 * 4096) as u64),
            name: r.2,
        })
    }
}

/// The k-th container created after `init` gets id k: from the list that
/// `init` and the creations of `reqs` leave (next id `reqs.len() + 1`), a
/// creation hands out id `reqs.len() + 1` and leaves the list of
/// `reqs.push(r)`; every such list carries ids 1, 2, 3, ... in order.
pub proof fn law_kth_creation_gets_id_k(reqs: Seq<(u64, u64, &'static str)>, r: (u64, u64, &'static str))
    requires
        reqs.len() + 1 < u32::MAX,
    ensures
        registry_after(reqs).len() == reqs.len(),
        ids_count_up(registry_after(reqs)),
        registry_after(reqs).push(Container {
            id: (reqs.len() + 1) as u32,
            state: ContainerState::Running,
            memory_region: (r.0, (r.1 * 4096) as u64),
            name: r.2,
        }) == registry_after(reqs.push(r)),
    decreases reqs.len(),
{
    if reqs.len() > 0 {
        law_kth_creation_gets_id_k(reqs.drop_last(), reqs.last());
        assert(reqs.drop_last().push(reqs.last()) =~= reqs);
        let s = registry_after(reqs);
        assert forall|j: int| 0 <= j < s.len() implies #[trigger] s[j].id == j + 1 by {
            if j < s.len() - 1 {
                assert(s[j] == registry_after(reqs.drop_last())[j]);
            }
        }
    }
    assert(reqs.push(r).drop_last() =~= reqs);
}

} // verus!
