//! Address regions: container nodes that hold sub-regions at offsets, one
//! tree for I/O ports and one for memory.
//!
//! All regions of a machine live in one [`RegionTree`] and are named by their
//! index in it, so a region can be held by the device that owns it and by the
//! container it is mapped into at the same time.

use vstd::prelude::*;
use crate::errors::PciError;

verus! {

/// The address space a region belongs to.
#[derive(Clone, Copy, PartialEq, Eq, Structural, Debug)]
pub enum RegionKind {
    /// I/O port space.
    Io,
    /// Memory space.
    Memory,
}

/// One entry of a container: a region and the offset it is mapped at.
#[derive(Clone, Copy, Debug)]
pub struct SubRegion {
    /// Handle of the mapped region.
    pub region: usize,
    /// Offset of the mapped region inside the container.
    pub offset: u64,
}

/// A container region: it has a size and an ordered list of entries, and no
/// storage of its own.
#[derive(Debug)]
pub struct Region {
    /// The address space of the region.
    pub kind: RegionKind,
    /// Size of the region in bytes.
    pub size: u64,
    /// The regions mapped into this one, in the order they were added.
    pub subregions: Vec<SubRegion>,
}

/// All regions of a machine; a handle is an index into `regions`.
#[derive(Debug)]
pub struct RegionTree {
    /// The regions, in the order they were created.
    pub regions: Vec<Region>,
}

/// What a region is, as a mathematical value.
pub struct RegionModel {
    /// The address space of the region.
    pub kind: RegionKind,
    /// Size of the region in bytes.
    pub size: u64,
    /// The entries of the region, in the order they were added.
    pub subregions: Seq<SubRegion>,
}

impl View for Region {
    type V = RegionModel;

    open spec fn view(&self) -> RegionModel {
        RegionModel { kind: self.kind, size: self.size, subregions: self.subregions@ }
    }
}

impl View for RegionTree {
    type V = Seq<RegionModel>;

    open spec fn view(&self) -> Seq<RegionModel> {
        Seq::new(self.regions.len() as nat, |i: int| self.regions[i]@)
    }
}

/// Whether the ranges `[a, a + a_len)` and `[b, b + b_len)` share an address.
pub open spec fn ranges_intersect(a: int, a_len: int, b: int, b_len: int) -> bool {
    a_len > 0 && b_len > 0 && a < b + b_len && b < a + a_len
}

/// Whether `child` is an entry of `entries`.
pub open spec fn is_mapped(entries: Seq<SubRegion>, child: usize) -> bool {
    exists|i: int| 0 <= i < entries.len() && (#[trigger] entries[i]).region == child
}

/// The position of `child` among `entries`, where it is one of them.
pub open spec fn mapped_index(entries: Seq<SubRegion>, child: usize) -> int {
    choose|i: int| 0 <= i < entries.len() && (#[trigger] entries[i]).region == child
}

/// Whether a range of `size` bytes at `offset` shares an address with an
/// entry of the container `container`.
pub open spec fn overlaps_entry(tree: Seq<RegionModel>, container: int, offset: u64, size: u64) -> bool {
    exists|i: int|
        0 <= i < tree[container].subregions.len() && ranges_intersect(
            (#[trigger] tree[container].subregions[i]).offset as int,
            tree[tree[container].subregions[i].region as int].size as int,
            offset as int,
            size as int,
        )
}

/// Whether `child` is mapped into `container` at `offset`.
pub open spec fn mapped_at(tree: Seq<RegionModel>, container: usize, child: usize, offset: u64) -> bool {
    &&& container < tree.len()
    &&& is_mapped(tree[container as int].subregions, child)
    &&& tree[container as int].subregions[mapped_index(
        tree[container as int].subregions,
        child,
    )].offset == offset
}

/// The invariant of a region tree: entries name regions of the tree and of
/// the container's own address space, no region is mapped twice into one
/// container, and no two entries of a container share an address.
pub open spec fn tree_wf(tree: Seq<RegionModel>) -> bool {
    &&& forall|c: int, i: int|
        0 <= c < tree.len() && 0 <= i < tree[c].subregions.len() ==> {
            &&& (#[trigger] tree[c].subregions[i]).region < tree.len()
            &&& tree[tree[c].subregions[i].region as int].kind == tree[c].kind
        }
    &&& forall|c: int, i: int, j: int|
        0 <= c < tree.len() && 0 <= i < j < tree[c].subregions.len() ==> {
            &&& (#[trigger] tree[c].subregions[i]).region != (#[trigger] tree[c].subregions[j]).region
            &&& !ranges_intersect(
                tree[c].subregions[i].offset as int,
                tree[tree[c].subregions[i].region as int].size as int,
                tree[c].subregions[j].offset as int,
                tree[tree[c].subregions[j].region as int].size as int,
            )
        }
}

/// Whether each entry of `container` names a region of the tree and of the
/// container's own address space.
pub open spec fn entries_valid(tree: Seq<RegionModel>, container: int) -> bool {
    forall|i: int|
        0 <= i < tree[container].subregions.len() ==> {
            &&& (#[trigger] tree[container].subregions[i]).region < tree.len()
            &&& tree[tree[container].subregions[i].region as int].kind == tree[container].kind
        }
}

/// Whether the entries `i` and `j` of `container` are different regions
/// that share no address.
pub open spec fn entries_apart_at(tree: Seq<RegionModel>, container: int, i: int, j: int) -> bool {
    &&& tree[container].subregions[i].region != tree[container].subregions[j].region
    &&& !ranges_intersect(
        tree[container].subregions[i].offset as int,
        tree[tree[container].subregions[i].region as int].size as int,
        tree[container].subregions[j].offset as int,
        tree[tree[container].subregions[j].region as int].size as int,
    )
}

/// Whether no region is mapped twice into `container` and no two entries of
/// it share an address.
pub open spec fn entries_disjoint(tree: Seq<RegionModel>, container: int) -> bool {
    forall|i: int, j: int|
        0 <= i < j < tree[container].subregions.len() ==> #[trigger] entries_apart_at(
            tree,
            container,
            i,
            j,
        )
}

/// Whether the entries of `container` are in order.
pub open spec fn container_wf(tree: Seq<RegionModel>, container: int) -> bool {
    entries_valid(tree, container) && entries_disjoint(tree, container)
}

/// A tree is in order when the entries of each of its regions are.
pub proof fn lemma_wf_by_container(tree: Seq<RegionModel>)
    ensures
        tree_wf(tree) <==> forall|c: int| 0 <= c < tree.len() ==> #[trigger] container_wf(tree, c),
{
    if tree_wf(tree) {
        assert forall|c: int| 0 <= c < tree.len() implies #[trigger] container_wf(tree, c) by {
            assert forall|i: int, j: int|
                0 <= i < j < tree[c].subregions.len() implies #[trigger] entries_apart_at(
                tree,
                c,
                i,
                j,
            ) by {
                assert(tree[c].subregions[i].region != tree[c].subregions[j].region);
            }
        }
    }
    if forall|c: int| 0 <= c < tree.len() ==> #[trigger] container_wf(tree, c) {
        assert forall|c: int, i: int| 0 <= c < tree.len() && 0 <= i < tree[c].subregions.len() implies {
            &&& (#[trigger] tree[c].subregions[i]).region < tree.len()
            &&& tree[tree[c].subregions[i].region as int].kind == tree[c].kind
        } by {
            assert(container_wf(tree, c));
        }
        assert forall|c: int, i: int, j: int|
            0 <= c < tree.len() && 0 <= i < j < tree[c].subregions.len() implies {
            &&& (#[trigger] tree[c].subregions[i]).region != (#[trigger] tree[c].subregions[j]).region
            &&& !ranges_intersect(
                tree[c].subregions[i].offset as int,
                tree[tree[c].subregions[i].region as int].size as int,
                tree[c].subregions[j].offset as int,
                tree[tree[c].subregions[j].region as int].size as int,
            )
        } by {
            assert(container_wf(tree, c));
            assert(entries_apart_at(tree, c, i, j));
        }
    }
}

/// Why `child` cannot be mapped into `container` at `offset`, if it cannot.
pub open spec fn add_subregion_error(
    tree: Seq<RegionModel>,
    container: usize,
    child: usize,
    offset: u64,
) -> Option<PciError> {
    if container >= tree.len() {
        Some(PciError::UnknownHandle { handle: container })
    } else if child >= tree.len() {
        Some(PciError::UnknownHandle { handle: child })
    } else if tree[container as int].kind != tree[child as int].kind {
        Some(PciError::RegionKindMismatch { container, region: child })
    } else if is_mapped(tree[container as int].subregions, child) {
        Some(PciError::RegionAlreadyMapped { container, region: child })
    } else if overlaps_entry(tree, container as int, offset, tree[child as int].size) {
        Some(PciError::RegionOverlap { container, offset, size: tree[child as int].size })
    } else {
        None
    }
}

/// The tree after `child` was mapped into `container` at `offset`, as the
/// last entry.
pub open spec fn tree_with_subregion(
    tree: Seq<RegionModel>,
    container: usize,
    child: usize,
    offset: u64,
) -> Seq<RegionModel> {
    tree.update(
        container as int,
        RegionModel {
            subregions: tree[container as int].subregions.push(SubRegion { region: child, offset }),
            ..tree[container as int]
        },
    )
}

/// Why `child` cannot be taken out of `container`, if it cannot.
pub open spec fn delete_subregion_error(tree: Seq<RegionModel>, container: usize, child: usize) -> Option<
    PciError,
> {
    if container >= tree.len() {
        Some(PciError::UnknownHandle { handle: container })
    } else if !is_mapped(tree[container as int].subregions, child) {
        Some(PciError::RegionNotMapped { container, region: child })
    } else {
        None
    }
}

/// The tree after the entry of `child` was taken out of `container`.
pub open spec fn tree_without_subregion(tree: Seq<RegionModel>, container: usize, child: usize) -> Seq<
    RegionModel,
> {
    tree.update(
        container as int,
        RegionModel {
            subregions: tree[container as int].subregions.remove(
                mapped_index(tree[container as int].subregions, child),
            ),
            ..tree[container as int]
        },
    )
}

/// The tree after `child` was taken out of `container`, if it was mapped
/// there: the state from which a region is mapped anew.
pub open spec fn tree_unmapped(tree: Seq<RegionModel>, container: usize, child: usize) -> Seq<
    RegionModel,
> {
    if delete_subregion_error(tree, container, child) is None {
        tree_without_subregion(tree, container, child)
    } else {
        tree
    }
}

/// Why `child` cannot be mapped anew into `container` at `offset`, if it
/// cannot.
pub open spec fn remap_subregion_error(
    tree: Seq<RegionModel>,
    container: usize,
    child: usize,
    offset: u64,
) -> Option<PciError> {
    add_subregion_error(tree_unmapped(tree, container, child), container, child, offset)
}

/// The tree after `child` was mapped anew into `container` at `offset`: an
/// entry that it had there is gone, and where the new place is free, `child`
/// is the last entry.
pub open spec fn tree_remapped(tree: Seq<RegionModel>, container: usize, child: usize, offset: u64) -> Seq<
    RegionModel,
> {
    if remap_subregion_error(tree, container, child, offset) is None {
        tree_with_subregion(tree_unmapped(tree, container, child), container, child, offset)
    } else {
        tree_unmapped(tree, container, child)
    }
}

/// Whether two trees hold the same regions, whatever their entries are.
pub open spec fn same_regions(a: Seq<RegionModel>, b: Seq<RegionModel>) -> bool {
    &&& a.len() == b.len()
    &&& forall|i: int|
        0 <= i < a.len() ==> (#[trigger] a[i]).kind == b[i].kind && a[i].size == b[i].size
}

/// Mapping a region into a tree that is in order leaves it in order.
pub proof fn lemma_add_keeps_wf(tree: Seq<RegionModel>, container: usize, child: usize, offset: u64)
    requires
        tree_wf(tree),
        add_subregion_error(tree, container, child, offset) is None,
    ensures
        tree_wf(tree_with_subregion(tree, container, child, offset)),
        tree_with_subregion(tree, container, child, offset).len() == tree.len(),
        is_mapped(tree_with_subregion(tree, container, child, offset)[container as int].subregions, child),
{
    let after = tree_with_subregion(tree, container, child, offset);
    let old_entries = tree[container as int].subregions;
    let entries = after[container as int].subregions;
    let last = old_entries.len() as int;
    assert(entries[last].region == child);
    assert forall|c: int, i: int| 0 <= c < after.len() && 0 <= i < after[c].subregions.len() implies {
        &&& (#[trigger] after[c].subregions[i]).region < after.len()
        &&& after[after[c].subregions[i].region as int].kind == after[c].kind
    } by {
        if c == container as int && i < last {
            assert(entries[i] == old_entries[i]);
        } else if c != container as int {
            assert(after[c].subregions[i] == tree[c].subregions[i]);
        }
    }
    assert forall|c: int, i: int, j: int|
        0 <= c < after.len() && 0 <= i < j < after[c].subregions.len() implies {
        &&& (#[trigger] after[c].subregions[i]).region != (#[trigger] after[c].subregions[j]).region
        &&& !ranges_intersect(
            after[c].subregions[i].offset as int,
            after[after[c].subregions[i].region as int].size as int,
            after[c].subregions[j].offset as int,
            after[after[c].subregions[j].region as int].size as int,
        )
    } by {
        if c == container as int {
            assert(entries[i] == old_entries[i]);
            if j < last {
                assert(entries[j] == old_entries[j]);
            } else {
                assert(old_entries[i].region != child);
                assert(!ranges_intersect(
                    old_entries[i].offset as int,
                    tree[old_entries[i].region as int].size as int,
                    offset as int,
                    tree[child as int].size as int,
                ));
            }
        } else {
            assert(after[c].subregions[i] == tree[c].subregions[i]);
            assert(after[c].subregions[j] == tree[c].subregions[j]);
        }
    }
}

/// Taking a region out of a tree that is in order leaves it in order, and
/// the region is then no entry of the container.
pub proof fn lemma_delete_keeps_wf(tree: Seq<RegionModel>, container: usize, child: usize)
    requires
        tree_wf(tree),
        delete_subregion_error(tree, container, child) is None,
    ensures
        tree_wf(tree_without_subregion(tree, container, child)),
        tree_without_subregion(tree, container, child).len() == tree.len(),
        !is_mapped(tree_without_subregion(tree, container, child)[container as int].subregions, child),
{
    let after = tree_without_subregion(tree, container, child);
    let old_entries = tree[container as int].subregions;
    let k = mapped_index(old_entries, child);
    let entries = after[container as int].subregions;
    assert(entries == old_entries.remove(k));
    assert forall|i: int| 0 <= i < entries.len() implies (#[trigger] entries[i]) == old_entries[if i
        < k {
        i
    } else {
        i + 1
    }] by {}
    assert forall|c: int, i: int| 0 <= c < after.len() && 0 <= i < after[c].subregions.len() implies {
        &&& (#[trigger] after[c].subregions[i]).region < after.len()
        &&& after[after[c].subregions[i].region as int].kind == after[c].kind
    } by {
        if c == container as int {
            let oi = if i < k {
                i
            } else {
                i + 1
            };
            assert(entries[i] == old_entries[oi]);
        } else {
            assert(after[c].subregions[i] == tree[c].subregions[i]);
        }
    }
    assert forall|c: int, i: int, j: int|
        0 <= c < after.len() && 0 <= i < j < after[c].subregions.len() implies {
        &&& (#[trigger] after[c].subregions[i]).region != (#[trigger] after[c].subregions[j]).region
        &&& !ranges_intersect(
            after[c].subregions[i].offset as int,
            after[after[c].subregions[i].region as int].size as int,
            after[c].subregions[j].offset as int,
            after[after[c].subregions[j].region as int].size as int,
        )
    } by {
        if c == container as int {
            let oi = if i < k {
                i
            } else {
                i + 1
            };
            let oj = if j < k {
                j
            } else {
                j + 1
            };
            assert(entries[i] == old_entries[oi]);
            assert(entries[j] == old_entries[oj]);
        } else {
            assert(after[c].subregions[i] == tree[c].subregions[i]);
            assert(after[c].subregions[j] == tree[c].subregions[j]);
        }
    }
    if is_mapped(entries, child) {
        let i = mapped_index(entries, child);
        let oi = if i < k {
            i
        } else {
            i + 1
        };
        assert(entries[i] == old_entries[oi]);
        if oi < k {
            assert(old_entries[oi].region != old_entries[k].region);
        } else {
            assert(old_entries[k].region != old_entries[oi].region);
        }
    }
}

impl RegionTree {
    /// The invariant of the tree; see [`tree_wf`].
    pub open spec fn wf(&self) -> bool {
        tree_wf(self@)
    }

    /// Tells whether the entries of `container` are in order: each names a
    /// region of the tree and of the container's own address space.
    fn entries_name_regions(&self, container: usize) -> (r: bool)
        requires
            container < self.regions.len(),
        ensures
            r == entries_valid(self@, container as int),
    {
        let n: usize = self.regions.len();
        let entries = &self.regions[container].subregions;
        let mut i: usize = 0;
        while i < entries.len()
            invariant
                i <= entries.len(),
                n == self.regions.len(),
                container < n,
                entries@ == self@[container as int].subregions,
                forall|k: int|
                    0 <= k < i ==> (#[trigger] entries@[k]).region < n
                        && self@[entries@[k].region as int].kind == self@[container as int].kind,
            decreases entries.len() - i,
        {
            let region: usize = entries[i].region;
            if region >= n || self.regions[region].kind != self.regions[container].kind {
                assert(!(self@[container as int].subregions[i as int].region < n
                    && self@[region as int].kind == self@[container as int].kind));
                return false;
            }
            i = i + 1;
        }
        true
    }

    /// Tells whether no region is mapped twice into `container` and no two
    /// entries of it share an address.
    fn entries_apart(&self, container: usize) -> (r: bool)
        requires
            container < self.regions.len(),
            entries_valid(self@, container as int),
        ensures
            r == entries_disjoint(self@, container as int),
    {
        let entries = &self.regions[container].subregions;
        let n: usize = entries.len();
        let mut j: usize = 0;
        while j < n
            invariant
                j <= n,
                n == entries.len(),
                container < self.regions.len(),
                entries@ == self@[container as int].subregions,
                entries_valid(self@, container as int),
                forall|a: int, b: int|
                    0 <= a < b < j ==> entries_apart_at(self@, container as int, a, b),
            decreases n - j,
        {
            let second = entries[j];
            assert(second == self@[container as int].subregions[j as int]);
            let second_size: u64 = self.regions[second.region].size;
            let mut i: usize = 0;
            while i < j
                invariant
                    i <= j,
                    j < n,
                    n == entries.len(),
                    container < self.regions.len(),
                    entries@ == self@[container as int].subregions,
                    entries_valid(self@, container as int),
                    second == entries@[j as int],
                    second.region < self.regions.len(),
                    second_size == self@[second.region as int].size,
                    forall|a: int| 0 <= a < i ==> entries_apart_at(self@, container as int, a, j as int),
                decreases j - i,
            {
                let first = entries[i];
                assert(first == self@[container as int].subregions[i as int]);
                let first_size: u64 = self.regions[first.region].size;
                if first.region == second.region || (first_size > 0 && second_size > 0 && (
                first.offset as u128) < second.offset as u128 + second_size as u128 && (
                second.offset as u128) < first.offset as u128 + first_size as u128) {
                    assert(!entries_apart_at(self@, container as int, i as int, j as int));
                    return false;
                }
                i = i + 1;
            }
            j = j + 1;
        }
        true
    }

    /// Tells whether the tree is in order; see [`tree_wf`].
    pub fn is_wf(&self) -> (r: bool)
        ensures
            r == self.wf(),
    {
        let n: usize = self.regions.len();
        let mut c: usize = 0;
        while c < n
            invariant
                c <= n,
                n == self.regions.len(),
                forall|k: int| 0 <= k < c ==> #[trigger] container_wf(self@, k),
            decreases n - c,
        {
            if !self.entries_name_regions(c) || !self.entries_apart(c) {
                proof {
                    lemma_wf_by_container(self@);
                    assert(!container_wf(self@, c as int));
                }
                return false;
            }
            assert(container_wf(self@, c as int));
            c = c + 1;
        }
        proof {
            lemma_wf_by_container(self@);
        }
        true
    }

    /// A tree without regions.
    pub fn new() -> (tree: RegionTree)
        ensures
            tree@ == Seq::<RegionModel>::empty(),
            tree.wf(),
    {
        let tree = RegionTree { regions: Vec::new() };
        tree
    }

    /// Number of regions in the tree.
    pub fn len(&self) -> (n: usize)
        ensures
            n == self@.len(),
    {
        self.regions.len()
    }

    /// Creates an empty container region of `size` bytes and returns its
    /// handle. Regions that exist keep their handles and their entries.
    pub fn init_container_region(&mut self, kind: RegionKind, size: u64) -> (id: usize)
        requires
            old(self).wf(),
        ensures
            id == old(self)@.len(),
            final(self)@ == old(self)@.push(
                RegionModel { kind, size, subregions: Seq::<SubRegion>::empty() },
            ),
            final(self).wf(),
    {
        let id: usize = self.regions.len();
        self.regions.push(Region { kind, size, subregions: Vec::new() });
        assert(self@ =~= old(self)@.push(
            RegionModel { kind, size, subregions: Seq::<SubRegion>::empty() },
        ));
        assert(tree_wf(self@)) by {
            let before = old(self)@;
            let after = self@;
            assert forall|c: int, i: int|
                0 <= c < after.len() && 0 <= i < after[c].subregions.len() implies {
                &&& (#[trigger] after[c].subregions[i]).region < after.len()
                &&& after[after[c].subregions[i].region as int].kind == after[c].kind
            } by {}
            assert forall|c: int, i: int, j: int|
                0 <= c < after.len() && 0 <= i < j < after[c].subregions.len() implies {
                &&& (#[trigger] after[c].subregions[i]).region != (
                #[trigger] after[c].subregions[j]).region
                &&& !ranges_intersect(
                    after[c].subregions[i].offset as int,
                    after[after[c].subregions[i].region as int].size as int,
                    after[c].subregions[j].offset as int,
                    after[after[c].subregions[j].region as int].size as int,
                )
            } by {}
        }
        id
    }

    /// Size in bytes of the region `id`; `None` for a handle without region.
    pub fn region_size(&self, id: usize) -> (r: Option<u64>)
        ensures
            r == if id < self@.len() {
                Some(self@[id as int].size)
            } else {
                None
            },
    {
        if id < self.regions.len() {
            Some(self.regions[id].size)
        } else {
            None
        }
    }

    /// Address space of the region `id`; `None` for a handle without region.
    pub fn region_kind(&self, id: usize) -> (r: Option<RegionKind>)
        ensures
            r == if id < self@.len() {
                Some(self@[id as int].kind)
            } else {
                None
            },
    {
        if id < self.regions.len() {
            Some(self.regions[id].kind)
        } else {
            None
        }
    }

    /// Position of `child` among the entries of `container`, if it is mapped
    /// there.
    pub fn find_subregion(&self, container: usize, child: usize) -> (r: Option<usize>)
        requires
            self.wf(),
        ensures
            container >= self@.len() ==> r is None,
            container < self@.len() ==> (r is Some <==> is_mapped(
                self@[container as int].subregions,
                child,
            )),
            r matches Some(i) ==> i == mapped_index(self@[container as int].subregions, child) && i
                < self@[container as int].subregions.len(),
    {
        if container >= self.regions.len() {
            return None;
        }
        let entries = &self.regions[container].subregions;
        let ghost tree = self@;
        let n: usize = entries.len();
        let mut i: usize = 0;
        while i < n
            invariant
                i <= n,
                n == entries.len(),
                tree == self@,
                tree_wf(tree),
                container < tree.len(),
                tree[container as int].subregions == entries@,
                forall|k: int| 0 <= k < i ==> (#[trigger] entries@[k]).region != child,
            decreases n - i,
        {
            if entries[i].region == child {
                proof {
                    // no region is mapped twice, so this is the entry
                    let m = mapped_index(entries@, child);
                    if m > i {
                        assert(tree[container as int].subregions[i as int].region
                            != tree[container as int].subregions[m].region);
                    }
                }
                return Some(i);
            }
            i = i + 1;
        }
        None
    }

    /// Offset at which `child` is mapped into `container`, if it is.
    pub fn subregion_offset(&self, container: usize, child: usize) -> (r: Option<u64>)
        requires
            self.wf(),
        ensures
            r == if container < self@.len() && is_mapped(self@[container as int].subregions, child) {
                Some(
                    self@[container as int].subregions[mapped_index(
                        self@[container as int].subregions,
                        child,
                    )].offset,
                )
            } else {
                None
            },
    {
        match self.find_subregion(container, child) {
            Some(i) => {
                Some(self.regions[container].subregions[i].offset)
            },
            None => None,
        }
    }

    /// Whether a range of `size` bytes at `offset` shares an address with an
    /// entry of `container`. A handle without region has no entries.
    pub fn overlaps(&self, container: usize, offset: u64, size: u64) -> (r: bool)
        requires
            self.wf(),
        ensures
            r == (container < self@.len() && overlaps_entry(self@, container as int, offset, size)),
    {
        if container >= self.regions.len() {
            return false;
        }
        let entries = &self.regions[container].subregions;
        let ghost tree = self@;
        let n: usize = entries.len();
        let mut i: usize = 0;
        while i < n
            invariant
                i <= n,
                n == entries.len(),
                self.wf(),
                tree == self@,
                container < tree.len(),
                tree[container as int].subregions == entries@,
                forall|k: int|
                    0 <= k < i ==> !ranges_intersect(
                        (#[trigger] entries@[k]).offset as int,
                        tree[entries@[k].region as int].size as int,
                        offset as int,
                        size as int,
                    ),
            decreases n - i,
        {
            let entry = entries[i];
            let entry_size: u64 = self.regions[entry.region].size;
            if entry_size > 0 && size > 0 && (entry.offset as u128) < offset as u128 + size as u128
                && (offset as u128) < entry.offset as u128 + entry_size as u128 {
                return true;
            }
            i = i + 1;
        }
        false
    }

    /// Tells whether `child` can be mapped into `container` at `offset`, and
    /// if not, why; see [`add_subregion_error`].
    pub fn can_add_subregion(&self, container: usize, child: usize, offset: u64) -> (r: Result<
        (),
        PciError,
    >)
        requires
            self.wf(),
        ensures
            match r {
                Ok(()) => add_subregion_error(self@, container, child, offset) is None,
                Err(e) => add_subregion_error(self@, container, child, offset) == Some(e),
            },
    {
        let n: usize = self.regions.len();
        if container >= n {
            return Err(PciError::UnknownHandle { handle: container });
        }
        if child >= n {
            return Err(PciError::UnknownHandle { handle: child });
        }
        if self.regions[container].kind != self.regions[child].kind {
            return Err(PciError::RegionKindMismatch { container, region: child });
        }
        if self.find_subregion(container, child).is_some() {
            return Err(PciError::RegionAlreadyMapped { container, region: child });
        }
        let size: u64 = self.regions[child].size;
        if self.overlaps(container, offset, size) {
            return Err(PciError::RegionOverlap { container, offset, size });
        }
        Ok(())
    }

    /// Maps `child` into `container` at `offset`, as the last entry. Nothing
    /// changes when this fails: when a handle names no region, the two
    /// regions are of different address spaces, `child` is already an entry,
    /// or the range of `child` would share an address with an entry.
    pub fn add_subregion(&mut self, container: usize, child: usize, offset: u64) -> (r: Result<
        (),
        PciError,
    >)
        requires
            old(self).wf(),
        ensures
            final(self).wf(),
            match r {
                Ok(()) => add_subregion_error(old(self)@, container, child, offset) is None
                    && final(self)@ == tree_with_subregion(old(self)@, container, child, offset),
                Err(e) => add_subregion_error(old(self)@, container, child, offset) == Some(e)
                    && final(self)@ == old(self)@,
            },
    {
        self.can_add_subregion(container, child, offset)?;
        self.regions[container].subregions.push(SubRegion { region: child, offset });
        proof {
            lemma_add_keeps_wf(old(self)@, container, child, offset);
            assert(self@ =~= tree_with_subregion(old(self)@, container, child, offset));
        }
        Ok(())
    }

    /// Takes the entry of `child` out of `container`; the other entries keep
    /// their order. Nothing changes when this fails: when `container` names
    /// no region, or `child` is no entry of it.
    pub fn delete_subregion(&mut self, container: usize, child: usize) -> (r: Result<(), PciError>)
        requires
            old(self).wf(),
        ensures
            final(self).wf(),
            match r {
                Ok(()) => delete_subregion_error(old(self)@, container, child) is None
                    && final(self)@ == tree_without_subregion(old(self)@, container, child),
                Err(e) => delete_subregion_error(old(self)@, container, child) == Some(e)
                    && final(self)@ == old(self)@,
            },
    {
        if container >= self.regions.len() {
            return Err(PciError::UnknownHandle { handle: container });
        }
        match self.find_subregion(container, child) {
            None => Err(PciError::RegionNotMapped { container, region: child }),
            Some(i) => {
                self.regions[container].subregions.remove(i);
                proof {
                    lemma_delete_keeps_wf(old(self)@, container, child);
                }
                Ok(())
            },
        }
    }

    /// Maps `child` into `container` at `offset`, whether or not it was
    /// mapped there before: an entry that `child` has in `container` is taken
    /// out first. When the new place is not free, `child` is left unmapped.
    pub fn remap_subregion(&mut self, container: usize, child: usize, offset: u64) -> (r: Result<
        (),
        PciError,
    >)
        requires
            old(self).wf(),
        ensures
            final(self).wf(),
            final(self)@ == tree_remapped(old(self)@, container, child, offset),
            match r {
                Ok(()) => remap_subregion_error(old(self)@, container, child, offset) is None,
                Err(e) => remap_subregion_error(old(self)@, container, child, offset) == Some(e),
            },
    {
        if self.find_subregion(container, child).is_some() {
            self.delete_subregion(container, child)?;
        }
        self.add_subregion(container, child, offset)
    }
}

/// Mapping anew is idempotent: once a region was mapped anew without error,
/// doing the same again raises no error and leaves the tree as it is, so
/// entries neither pile up nor block each other.
#[verifier::spinoff_prover]
pub proof fn lemma_remap_idempotent(tree: Seq<RegionModel>, container: usize, child: usize, offset: u64)
    requires
        tree_wf(tree),
        remap_subregion_error(tree, container, child, offset) is None,
    ensures
        remap_subregion_error(
            tree_remapped(tree, container, child, offset),
            container,
            child,
            offset,
        ) is None,
        tree_remapped(tree_remapped(tree, container, child, offset), container, child, offset)
            == tree_remapped(tree, container, child, offset),
        mapped_at(tree_remapped(tree, container, child, offset), container, child, offset),
{
    let unmapped = tree_unmapped(tree, container, child);
    if delete_subregion_error(tree, container, child) is None {
        lemma_delete_keeps_wf(tree, container, child);
    }
    lemma_add_keeps_wf(unmapped, container, child, offset);
    let once = tree_remapped(tree, container, child, offset);
    let entries = once[container as int].subregions;
    let before = unmapped[container as int].subregions;
    let last = before.len() as int;
    assert(entries[last].region == child);
    let k = mapped_index(entries, child);
    if k != last {
        assert(entries[k].region != entries[last].region);
    }
    assert(entries.remove(last) =~= before);
    assert(tree_unmapped(once, container, child) =~= unmapped);
    assert(k == last);
}

/// Mapping a region anew leaves a tree that is in order in order, whether
/// or not the region finds its place.
pub proof fn lemma_remap_keeps_wf(tree: Seq<RegionModel>, container: usize, child: usize, offset: u64)
    requires
        tree_wf(tree),
    ensures
        tree_wf(tree_unmapped(tree, container, child)),
        tree_wf(tree_remapped(tree, container, child, offset)),
{
    if delete_subregion_error(tree, container, child) is None {
        lemma_delete_keeps_wf(tree, container, child);
    }
    if remap_subregion_error(tree, container, child, offset) is None {
        lemma_add_keeps_wf(tree_unmapped(tree, container, child), container, child, offset);
    }
}

/// Mapping a region anew moves no other entry: a region that is mapped
/// somewhere stays mapped there, at its offset, when another region is
/// mapped anew, or the same region in another container.
#[verifier::spinoff_prover]
pub proof fn lemma_remap_keeps_other_entries(
    tree: Seq<RegionModel>,
    container: usize,
    child: usize,
    offset: u64,
    elsewhere: usize,
    other: usize,
    other_offset: u64,
)
    requires
        tree_wf(tree),
        other != child || elsewhere != container,
        mapped_at(tree, elsewhere, other, other_offset),
    ensures
        mapped_at(tree_remapped(tree, container, child, offset), elsewhere, other, other_offset),
{
    let after = tree_remapped(tree, container, child, offset);
    lemma_remap_keeps_wf(tree, container, child, offset);
    let entries = tree[elsewhere as int].subregions;
    let i = mapped_index(entries, other);
    if elsewhere != container || container >= tree.len() {
        assert(after[elsewhere as int].subregions == entries);
    } else {
        let unmapped = tree_unmapped(tree, container, child)[container as int].subregions;
        let after_index = if is_mapped(entries, child) {
            let k = mapped_index(entries, child);
            assert(unmapped == entries.remove(k));
            if i < k {
                i
            } else {
                i - 1
            }
        } else {
            i
        };
        assert(unmapped[after_index] == entries[i]);
        let after_entries = after[elsewhere as int].subregions;
        assert(after_entries[after_index] == entries[i]);
        let j = mapped_index(after_entries, other);
        if j < after_index {
            assert(after_entries[j].region != after_entries[after_index].region);
        } else if j > after_index {
            assert(after_entries[after_index].region != after_entries[j].region);
        }
    }
}

/// Mapping and unmapping regions leaves the regions themselves as they are.
pub proof fn lemma_remap_same_regions(tree: Seq<RegionModel>, container: usize, child: usize, offset: u64)
    ensures
        same_regions(tree, tree_unmapped(tree, container, child)),
        same_regions(tree, tree_remapped(tree, container, child, offset)),
        container < tree.len() ==> same_regions(
            tree,
            tree_with_subregion(tree, container, child, offset),
        ),
        container < tree.len() ==> same_regions(tree, tree_without_subregion(tree, container, child)),
{
}


/// Mapping a region anew looks at one container only: in two trees that
/// hold the same regions and agree on the entries of `container`, it fails
/// or succeeds alike and leaves the same entries in `container`; and it
/// changes no other region.
#[verifier::spinoff_prover]
pub proof fn lemma_remap_is_local(
    a: Seq<RegionModel>,
    b: Seq<RegionModel>,
    container: usize,
    child: usize,
    offset: u64,
)
    requires
        tree_wf(a),
        tree_wf(b),
        same_regions(a, b),
        container < a.len(),
        a[container as int].subregions == b[container as int].subregions,
    ensures
        remap_subregion_error(a, container, child, offset) == remap_subregion_error(
            b,
            container,
            child,
            offset,
        ),
        tree_remapped(a, container, child, offset)[container as int].subregions == tree_remapped(
            b,
            container,
            child,
            offset,
        )[container as int].subregions,
        forall|c: int|
            0 <= c < a.len() && c != container ==> (#[trigger] tree_remapped(
                a,
                container,
                child,
                offset,
            )[c]) == a[c],
{
    let ua = tree_unmapped(a, container, child);
    let ub = tree_unmapped(b, container, child);
    lemma_remap_keeps_wf(a, container, child, offset);
    lemma_remap_keeps_wf(b, container, child, offset);
    assert(ua[container as int].subregions == ub[container as int].subregions);
    assert(same_regions(ua, ub));
    if child < a.len() {
        let size = a[child as int].size;
        let entries = ua[container as int].subregions;
        if overlaps_entry(ua, container as int, offset, size) {
            let i = choose|i: int|
                0 <= i < entries.len() && ranges_intersect(
                    (#[trigger] entries[i]).offset as int,
                    ua[entries[i].region as int].size as int,
                    offset as int,
                    size as int,
                );
            assert(ub[container as int].subregions[i] == entries[i]);
            assert(ua[entries[i].region as int].size == ub[entries[i].region as int].size);
            assert(overlaps_entry(ub, container as int, offset, size));
        }
        if overlaps_entry(ub, container as int, offset, size) {
            let i = choose|i: int|
                0 <= i < entries.len() && ranges_intersect(
                    (#[trigger] entries[i]).offset as int,
                    ub[entries[i].region as int].size as int,
                    offset as int,
                    size as int,
                );
            assert(ua[container as int].subregions[i] == entries[i]);
            assert(ua[entries[i].region as int].size == ub[entries[i].region as int].size);
            assert(overlaps_entry(ua, container as int, offset, size));
        }
    }
}


/// A tree that mapping a region anew leaves as it is stays such a tree
/// when other containers change: where `changed` holds the same regions as
/// `tree` and agrees with it on the entries of `container`, mapping the
/// region anew raises no error there either and leaves `changed` as it is.
#[verifier::spinoff_prover]
pub proof fn lemma_remap_fixed_point_is_local(
    tree: Seq<RegionModel>,
    changed: Seq<RegionModel>,
    container: usize,
    child: usize,
    offset: u64,
)
    requires
        tree_wf(tree),
        tree_wf(changed),
        same_regions(tree, changed),
        container < tree.len(),
        tree[container as int].subregions == changed[container as int].subregions,
        remap_subregion_error(tree, container, child, offset) is None,
        tree_remapped(tree, container, child, offset) == tree,
    ensures
        remap_subregion_error(changed, container, child, offset) is None,
        tree_remapped(changed, container, child, offset) == changed,
{
    let again = tree_remapped(changed, container, child, offset);
    assert(remap_subregion_error(changed, container, child, offset) is None && again[container as int].subregions
        == changed[container as int].subregions) by {
        lemma_remap_is_local(tree, changed, container, child, offset);
    }
    assert(same_regions(changed, again)) by {
        lemma_remap_same_regions(changed, container, child, offset);
    }
    assert forall|c: int| 0 <= c < changed.len() && c != container implies again[c]
        == changed[c] by {
        lemma_remap_is_local(changed, changed, container, child, offset);
    }
    assert forall|c: int| 0 <= c < changed.len() implies again[c] == changed[c] by {
        if c == container {
            assert(again[c].kind == changed[c].kind);
            assert(again[c].size == changed[c].size);
            assert(again[c].subregions == changed[c].subregions);
        }
    }
    assert(again =~= changed);
}


/// A new region changes nothing for the regions that are there: whether a
/// region can be mapped into a container of the tree, and if not why, is
/// the same after another region was made.
pub proof fn lemma_add_error_after_push(
    tree: Seq<RegionModel>,
    region: RegionModel,
    container: usize,
    child: usize,
    offset: u64,
)
    requires
        tree_wf(tree),
        container < tree.len(),
        child < tree.len(),
    ensures
        add_subregion_error(tree.push(region), container, child, offset) == add_subregion_error(
            tree,
            container,
            child,
            offset,
        ),
{
    let grown = tree.push(region);
    let entries = tree[container as int].subregions;
    assert(grown[container as int].subregions == entries);
    let size = tree[child as int].size;
    if overlaps_entry(tree, container as int, offset, size) {
        let i = choose|i: int|
            0 <= i < entries.len() && ranges_intersect(
                (#[trigger] entries[i]).offset as int,
                tree[entries[i].region as int].size as int,
                offset as int,
                size as int,
            );
        assert(grown[container as int].subregions[i] == entries[i]);
        assert(grown[entries[i].region as int] == tree[entries[i].region as int]);
    }
    if overlaps_entry(grown, container as int, offset, size) {
        let i = choose|i: int|
            0 <= i < entries.len() && ranges_intersect(
                (#[trigger] grown[container as int].subregions[i]).offset as int,
                grown[grown[container as int].subregions[i].region as int].size as int,
                offset as int,
                size as int,
            );
        assert(tree[container as int].subregions[i] == entries[i]);
        assert(grown[entries[i].region as int] == tree[entries[i].region as int]);
    }
}

/// Mapping a region into one container changes nothing for another
/// container: whether a region can be mapped there, and if not why, is the
/// same afterwards.
pub proof fn lemma_add_error_elsewhere(
    tree: Seq<RegionModel>,
    container: usize,
    child: usize,
    offset: u64,
    elsewhere: usize,
    other: usize,
    other_offset: u64,
)
    requires
        tree_wf(tree),
        container < tree.len(),
        elsewhere != container,
    ensures
        add_subregion_error(
            tree_with_subregion(tree, container, child, offset),
            elsewhere,
            other,
            other_offset,
        ) == add_subregion_error(tree, elsewhere, other, other_offset),
{
    let after = tree_with_subregion(tree, container, child, offset);
    if elsewhere < tree.len() && other < tree.len() {
        let entries = tree[elsewhere as int].subregions;
        assert(after[elsewhere as int].subregions == entries);
        let size = tree[other as int].size;
        if overlaps_entry(tree, elsewhere as int, other_offset, size) {
            let i = choose|i: int|
                0 <= i < entries.len() && ranges_intersect(
                    (#[trigger] entries[i]).offset as int,
                    tree[entries[i].region as int].size as int,
                    other_offset as int,
                    size as int,
                );
            assert(after[elsewhere as int].subregions[i] == entries[i]);
            assert(after[entries[i].region as int].size == tree[entries[i].region as int].size);
        }
        if overlaps_entry(after, elsewhere as int, other_offset, size) {
            let i = choose|i: int|
                0 <= i < entries.len() && ranges_intersect(
                    (#[trigger] after[elsewhere as int].subregions[i]).offset as int,
                    after[after[elsewhere as int].subregions[i].region as int].size as int,
                    other_offset as int,
                    size as int,
                );
            assert(tree[elsewhere as int].subregions[i] == entries[i]);
            assert(after[entries[i].region as int].size == tree[entries[i].region as int].size);
        }
    }
}


/// A region can always be mapped anew where it is: in a tree that is in
/// order, mapping a region anew at the offset it is mapped at raises no
/// error.
pub proof fn lemma_remap_where_mapped(tree: Seq<RegionModel>, container: usize, child: usize, offset: u64)
    requires
        tree_wf(tree),
        mapped_at(tree, container, child, offset),
    ensures
        remap_subregion_error(tree, container, child, offset) is None,
{
    let entries = tree[container as int].subregions;
    let k = mapped_index(entries, child);
    let unmapped = tree_unmapped(tree, container, child);
    let rest = unmapped[container as int].subregions;
    lemma_delete_keeps_wf(tree, container, child);
    assert(rest == entries.remove(k));
    assert(entries[k].region < tree.len());
    assert(tree[entries[k].region as int].kind == tree[container as int].kind);
    if overlaps_entry(unmapped, container as int, offset, tree[child as int].size) {
        let i = choose|i: int|
            0 <= i < rest.len() && ranges_intersect(
                (#[trigger] rest[i]).offset as int,
                unmapped[rest[i].region as int].size as int,
                offset as int,
                tree[child as int].size as int,
            );
        let j = if i < k {
            i
        } else {
            i + 1
        };
        assert(rest[i] == entries[j]);
        assert(unmapped[rest[i].region as int].size == tree[entries[j].region as int].size);
        if j < k {
            assert(!ranges_intersect(
                entries[j].offset as int,
                tree[entries[j].region as int].size as int,
                entries[k].offset as int,
                tree[entries[k].region as int].size as int,
            ));
        } else {
            assert(!ranges_intersect(
                entries[k].offset as int,
                tree[entries[k].region as int].size as int,
                entries[j].offset as int,
                tree[entries[j].region as int].size as int,
            ));
        }
    }
}

} // verus!
