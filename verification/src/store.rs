//! The content-addressed store of interchange documents.
//!
//! The store keeps one document for each palette, found by the hash of the
//! palette's materials. A document holds the palette and one node for each
//! voxel volume that has been put into it; a volume that is put in again is
//! found by its hash and left alone. Reading and writing the documents is
//! the caller's part: the store says which documents have to be written,
//! and the caller says what it found on disk.

use crate::hash::{compute_n, digest, n_to_str, named_hash, str_to_n, Canonical};
use crate::material::Material;
use crate::voxels::Voxels;
use std::collections::HashMap;
use vstd::prelude::*;

verus! {

broadcast use vstd::std_specs::hash::group_hash_axioms;

/// One voxel of a model of the interchange format.
#[derive(Clone, Copy, Debug)]
pub struct Voxel {
    pub pos: [u8; 3],
    pub index: u8,
}

/// A model of the interchange format: a box of at most 256 cells a side
/// and its non-empty voxels.
#[derive(Debug)]
pub struct Model {
    pub size: [u32; 3],
    pub voxels: Vec<Voxel>,
}

/// A node of a document: a named model and where it is placed.
#[derive(Debug)]
pub struct Node {
    pub name: Option<String>,
    pub translation: [i32; 3],
    pub model: Model,
}

/// An interchange document: the materials of the palette entries 1 to 255
/// and the nodes.
#[derive(Debug)]
pub struct Document {
    pub palette: Vec<Material>,
    pub nodes: Vec<Node>,
}

/// What a node holds.
pub struct NodeView {
    pub name: Option<Seq<char>>,
    pub translation: [i32; 3],
    pub size: [u32; 3],
    pub voxels: Seq<Voxel>,
}

/// What a document holds.
pub struct DocumentView {
    pub palette: Seq<Material>,
    pub nodes: Seq<NodeView>,
}

impl View for Node {
    type V = NodeView;

    open spec fn view(&self) -> NodeView {
        NodeView {
            name: match self.name {
                Some(name) => Some(name@),
                None => None,
            },
            translation: self.translation,
            size: self.model.size,
            voxels: self.model.voxels@,
        }
    }
}

impl View for Document {
    type V = DocumentView;

    open spec fn view(&self) -> DocumentView {
        DocumentView {
            palette: self.palette@,
            nodes: Seq::new(self.nodes@.len(), |i: int| self.nodes@[i]@),
        }
    }
}

/// One document of the store with what the store knows of it.
pub struct StoreFile {
    path: String,
    document: Document,
    shape_indices: HashMap<u64, usize>,
    dirty: bool,
}

/// What a store file holds.
pub struct StoreFileView {
    /// The name of the file that holds the document.
    pub path: Seq<char>,
    pub document: DocumentView,
    /// For the hash of each volume that the document is known to hold, the
    /// position of its node.
    pub shape_indices: Map<u64, usize>,
    /// Whether the document has changed since it was read or written.
    pub dirty: bool,
}

impl View for StoreFile {
    type V = StoreFileView;

    closed spec fn view(&self) -> StoreFileView {
        StoreFileView {
            path: self.path@,
            document: self.document@,
            shape_indices: self.shape_indices@,
            dirty: self.dirty,
        }
    }
}

/// Whether a voxel fits into a model: none of its coordinates is over 255.
pub open spec fn fits_model(voxel: ([u32; 3], u8)) -> bool {
    voxel.0[0] <= 255 && voxel.0[1] <= 255 && voxel.0[2] <= 255
}

/// The voxels among the first `n` of `solid` that fit into a model.
pub open spec fn model_voxels(solid: Seq<([u32; 3], u8)>, n: nat) -> Seq<Voxel>
    decreases n,
{
    if n == 0 {
        Seq::empty()
    } else {
        let before = model_voxels(solid, (n - 1) as nat);
        let voxel = solid[n - 1];
        if fits_model(voxel) {
            before.push(
                Voxel {
                    pos: [voxel.0[0] as u8, voxel.0[1] as u8, voxel.0[2] as u8],
                    index: voxel.1,
                },
            )
        } else {
            before
        }
    }
}

/// A side of a model that holds a volume with a side of length `dim`.
pub open spec fn model_side(dim: u32) -> u32 {
    if dim < 256 {
        dim
    } else {
        256
    }
}

/// The node that holds a volume: it is named by the hash of the volume, its
/// model has the size of the volume cut down to 256 cells a side and the
/// voxels of the volume that fit, and it is placed so that the middle of
/// the model's floor lies at the origin.
pub open spec fn node_for(voxels: Voxels, name: Seq<char>) -> NodeView {
    let size = [model_side(voxels.size[0]), model_side(voxels.size[1]), model_side(voxels.size[2])];
    NodeView {
        name: Some(name),
        translation: [(size[0] / 2) as i32, (size[1] / 2 - 1) as i32, (size[2] / 2) as i32],
        size,
        voxels: model_voxels(voxels.solid(), voxels.solid().len()),
    }
}

/// The hashes that the names of the first `n` nodes stand for, each with
/// the position of its node; of two nodes with one name the later counts.
pub open spec fn indexed(nodes: Seq<NodeView>, n: nat) -> Map<u64, usize>
    decreases n,
{
    if n == 0 {
        Map::empty()
    } else {
        let before = indexed(nodes, (n - 1) as nat);
        match nodes[n - 1].name {
            Some(name) => match named_hash(name) {
                Some(hash) => before.insert(hash, (n - 1) as usize),
                None => before,
            },
            None => before,
        }
    }
}

/// The document of a palette that has no document yet: the materials of
/// the palette entries 1 to 255 and no nodes.
pub open spec fn fresh_document(palette: Seq<Material>) -> DocumentView {
    DocumentView { palette: palette.subrange(1, 256), nodes: Seq::empty() }
}

/// A store file after a volume with the hash `hash` has been put in, for
/// which `node` is the node: where the hash is known, nothing changes;
/// else the node is added, the hash is known from then on, and the
/// document has changed.
pub open spec fn inserted(file: StoreFileView, hash: u64, node: NodeView) -> StoreFileView {
    if file.shape_indices.contains_key(hash) {
        file
    } else {
        StoreFileView {
            path: file.path,
            document: DocumentView {
                palette: file.document.palette,
                nodes: file.document.nodes.push(node),
            },
            shape_indices: file.shape_indices.insert(hash, file.document.nodes.len() as usize),
            dirty: true,
        }
    }
}

/// Putting a volume into a store file twice leaves one node for it, and
/// the second time changes nothing: a file that has been written in
/// between stays clean.
pub proof fn lemma_insert_twice(file: StoreFileView, hash: u64, node: NodeView, written: bool)
    ensures
        inserted(inserted(file, hash, node), hash, node) == inserted(file, hash, node),
        !file.shape_indices.contains_key(hash) ==> inserted(file, hash, node).document.nodes.len()
            == file.document.nodes.len() + 1 && inserted(file, hash, node).dirty,
        file.shape_indices.contains_key(hash) ==> inserted(file, hash, node) == file,
        ({
            let first = inserted(file, hash, node);
            let between = StoreFileView {
                path: first.path,
                document: first.document,
                shape_indices: first.shape_indices,
                dirty: first.dirty && !written,
            };
            inserted(between, hash, node) == between
        }),
{
}

impl StoreFile {
    /// The store file of a palette: with the document that was found on
    /// disk, or with a fresh one where none was found.
    ///
    /// The volumes that a document from disk holds are known by the names
    /// of its nodes.
    pub fn new(path: String, on_disk: Option<Document>, palette: &[Material; 256]) -> (file:
        StoreFile)
        ensures
            file@.path == path@,
            file@.document == match on_disk {
                Some(document) => document@,
                None => fresh_document(palette@),
            },
            file@.shape_indices == indexed(file@.document.nodes, file@.document.nodes.len()),
            !file@.dirty,
    {
        let mut shape_indices: HashMap<u64, usize> = HashMap::new();
        let document = match on_disk {
            Some(document) => {
                let mut i: usize = 0;
                while i < document.nodes.len()
                    invariant
                        i <= document.nodes@.len(),
                        shape_indices@ == indexed(document@.nodes, i as nat),
                    decreases document.nodes@.len() - i,
                {
                    assert(document@.nodes[i as int] == document.nodes@[i as int]@);
                    match &document.nodes[i].name {
                        Some(name) => {
                            match str_to_n(name.as_str()) {
                                Ok(hash_n) => {
                                    shape_indices.insert(hash_n, i);
                                },
                                Err(_) => {},
                            }
                        },
                        None => {},
                    }
                    i = i + 1;
                }
                document
            },
            None => {
                let mut materials: Vec<Material> = Vec::new();
                let mut i: usize = 1;
                while i < 256
                    invariant
                        1 <= i <= 256,
                        materials@ == palette@.subrange(1, i as int),
                    decreases 256 - i,
                {
                    materials.push(palette[i]);
                    i = i + 1;
                    assert(materials@ =~= palette@.subrange(1, i as int));
                }
                let document = Document { palette: materials, nodes: Vec::new() };
                assert(document@.nodes =~= Seq::empty());
                document
            },
        };
        StoreFile { path, document, shape_indices, dirty: false }
    }

    /// The name of the file that holds the document.
    pub fn path(&self) -> (path: &String)
        ensures
            path@ == self@.path,
    {
        &self.path
    }

    /// The document.
    pub fn document(&self) -> (document: &Document)
        ensures
            document@ == self@.document,
    {
        &self.document
    }

    /// Whether the document has changed since it was read or written.
    pub fn is_dirty(&self) -> (dirty: bool)
        ensures
            dirty == self@.dirty,
    {
        self.dirty
    }

    /// Notes that the document has been written as it is now.
    pub fn mark_written(&mut self)
        ensures
            final(self)@ == (StoreFileView {
                path: old(self)@.path,
                document: old(self)@.document,
                shape_indices: old(self)@.shape_indices,
                dirty: false,
            }),
    {
        self.dirty = false;
    }

    /// Puts a volume into the document unless the document is known to
    /// hold it.
    pub fn store_voxel_data(&mut self, voxel_data: &Voxels)
        ensures
            final(self)@ == inserted(
                old(self)@,
                digest(voxel_data.canonical()),
                node_for(*voxel_data, crate::hash::base64_url(crate::numeric::u64_le_bytes(
                    digest(voxel_data.canonical()),
                ))),
            ),
    {
        let hash_n = compute_n(voxel_data);
        if self.shape_indices.contains_key(&hash_n) {
            return ;
        }
        let len = self.document.nodes.len();
        let node = node_of(voxel_data, n_to_str(hash_n));
        let ghost before = self.document@;
        self.document.nodes.push(node);
        self.dirty = true;
        self.shape_indices.insert(hash_n, len);
        assert(self.document@.nodes =~= before.nodes.push(node@));
    }
}

/// The node with the given name that holds a volume.
pub fn node_of(voxel_data: &Voxels, name: String) -> (node: Node)
    ensures
        node@ == node_for(*voxel_data, name@),
{
    let ghost solid = voxel_data.solid();
    let mut voxels: Vec<Voxel> = Vec::new();
    let mut walk = voxel_data.iter();
    let ghost mut seen: nat = 0;
    loop
        invariant
            seen <= solid.len(),
            walk.remaining() == solid.skip(seen as int),
            voxels@ == model_voxels(solid, seen),
        ensures
            voxels@ == model_voxels(solid, solid.len()),
        decreases solid.len() - seen,
    {
        match walk.next() {
            None => {
                break ;
            },
            Some((coord, palette_index)) => {
                proof {
                    assert(solid.skip(seen as int).skip(1) =~= solid.skip(seen as int + 1));
                    seen = seen + 1;
                }
                if coord[0] <= 255 && coord[1] <= 255 && coord[2] <= 255 {
                    voxels.push(
                        Voxel {
                            pos: [coord[0] as u8, coord[1] as u8, coord[2] as u8],
                            index: palette_index,
                        },
                    );
                }
            },
        }
    }
    let size = [
        side_of_model(voxel_data.size[0]),
        side_of_model(voxel_data.size[1]),
        side_of_model(voxel_data.size[2]),
    ];
    let node = Node {
        name: Some(name),
        translation: [(size[0] / 2) as i32, (size[1] / 2) as i32 - 1, (size[2] / 2) as i32],
        model: Model { size, voxels },
    };
    assert(node@ == node_for(*voxel_data, name@)) by {
        assert(node@.translation =~= node_for(*voxel_data, name@).translation);
        assert(node@.size =~= node_for(*voxel_data, name@).size);
    }
    node
}

/// A side of a model that holds a volume with a side of length `dim`.
fn side_of_model(dim: u32) -> (side: u32)
    ensures
        side == model_side(dim),
{
    if dim < 256 {
        dim
    } else {
        256
    }
}

/// The store: the documents of the palettes that have been asked for, in
/// the order in which they were first asked for. A document is known by
/// its place in that order, its handle.
pub struct Store {
    hash_vox_dir: String,
    keys: Vec<u64>,
    files: Vec<StoreFile>,
    palette_files: HashMap<u64, usize>,
}

/// What a store holds.
pub struct StoreView {
    /// The directory that holds the documents.
    pub hash_vox_dir: Seq<char>,
    /// The hash of the palette of each document.
    pub keys: Seq<u64>,
    /// The documents.
    pub files: Seq<StoreFileView>,
}

impl View for Store {
    type V = StoreView;

    closed spec fn view(&self) -> StoreView {
        StoreView {
            hash_vox_dir: self.hash_vox_dir@,
            keys: self.keys@,
            files: Seq::new(self.files@.len(), |i: int| self.files@[i]@),
        }
    }
}

/// The name of the file that holds the document of the palette with the
/// hash `hash`: the text that names the hash, and the ending `.vox`.
pub open spec fn file_name(hash: u64) -> Seq<char> {
    crate::hash::base64_url(crate::numeric::u64_le_bytes(hash)) + ".vox"@
}

/// The store file of a palette that is asked for the first time.
pub open spec fn opened(
    hash: u64,
    on_disk: Option<DocumentView>,
    palette: Seq<Material>,
) -> StoreFileView {
    let document = match on_disk {
        Some(document) => document,
        None => fresh_document(palette),
    };
    StoreFileView {
        path: file_name(hash),
        document,
        shape_indices: indexed(document.nodes, document.nodes.len()),
        dirty: false,
    }
}

/// A store after a palette has been asked for: a store that has the
/// document of the palette stays as it is, any other gets it as its last.
pub open spec fn loaded(
    store: StoreView,
    palette: Seq<Material>,
    on_disk: Option<DocumentView>,
) -> StoreView {
    let hash = digest(crate::hash::materials_bytes(palette, 256));
    if store.keys.contains(hash) {
        store
    } else {
        StoreView {
            hash_vox_dir: store.hash_vox_dir,
            keys: store.keys.push(hash),
            files: store.files.push(opened(hash, on_disk, palette)),
        }
    }
}

/// What a document that may have been found holds.
pub open spec fn view_of(on_disk: Option<Document>) -> Option<DocumentView> {
    match on_disk {
        Some(document) => Some(document@),
        None => None,
    }
}

/// What was found on disk for the `k`-th palette; nothing where the list
/// is too short.
pub open spec fn found(on_disk: Seq<Option<DocumentView>>, k: int) -> Option<DocumentView> {
    if 0 <= k < on_disk.len() {
        on_disk[k]
    } else {
        None
    }
}

/// A store after the first `n` of the palettes have been asked for, one
/// after the other.
pub open spec fn loaded_all(
    store: StoreView,
    palettes: Seq<Seq<Material>>,
    on_disk: Seq<Option<DocumentView>>,
    n: nat,
) -> StoreView
    decreases n,
{
    if n == 0 {
        store
    } else {
        loaded(
            loaded_all(store, palettes, on_disk, (n - 1) as nat),
            palettes[n - 1],
            found(on_disk, n - 1),
        )
    }
}

impl Store {
    /// Whether the store is in order: each document has the hash of its
    /// palette, no two documents have the same, and a document is found by
    /// the hash of its palette.
    pub open spec fn wf(&self) -> bool {
        &&& self@.keys.len() == self@.files.len()
        &&& self@.keys.no_duplicates()
        &&& self.found_by_key()
    }

    /// Whether the store finds each document by the hash of its palette.
    pub closed spec fn found_by_key(&self) -> bool {
        &&& self.keys@.len() == self.files@.len()
        &&& forall|i: int|
            0 <= i < self.keys@.len() ==> self.palette_files@.contains_key(
                #[trigger] self.keys@[i],
            ) && self.palette_files@[self.keys@[i]] == i
        &&& forall|key: u64| #[trigger]
            self.palette_files@.contains_key(key) ==> self.palette_files@[key] < self.keys@.len()
                && self.keys@[self.palette_files@[key] as int] == key
    }

    /// A store without documents, which are to lie in `hash_vox_dir`.
    pub fn new(hash_vox_dir: String) -> (store: Store)
        ensures
            store.wf(),
            store@.hash_vox_dir == hash_vox_dir@,
            store@.keys.len() == 0,
            store@.files.len() == 0,
    {
        Store { hash_vox_dir, keys: Vec::new(), files: Vec::new(), palette_files: HashMap::new() }
    }

    /// The directory that holds the documents.
    pub fn hash_vox_dir(&self) -> (dir: &String)
        ensures
            dir@ == self@.hash_vox_dir,
    {
        &self.hash_vox_dir
    }

    /// Number of documents.
    pub fn len(&self) -> (n: usize)
        ensures
            n == self@.files.len(),
    {
        self.files.len()
    }

    /// The handle of the document of the palette with the hash `key`, if
    /// the store has it.
    pub fn handle_of(&self, key: u64) -> (handle: Option<usize>)
        requires
            self.wf(),
        ensures
            match handle {
                Some(h) => h < self@.keys.len() && self@.keys[h as int] == key,
                None => !self@.keys.contains(key),
            },
    {
        match self.palette_files.get(&key) {
            Some(handle) => Some(*handle),
            None => None,
        }
    }

    /// The document with the given handle.
    pub fn file(&self, handle: usize) -> (file: Option<&StoreFile>)
        ensures
            match file {
                Some(f) => handle < self@.files.len() && f@ == self@.files[handle as int],
                None => handle >= self@.files.len(),
            },
    {
        if handle < self.files.len() {
            Some(&self.files[handle])
        } else {
            None
        }
    }

    /// Asks for the document of a palette and gives its handle. A document
    /// that the store does not have yet is made from what was found on
    /// disk, or afresh where nothing was found.
    pub fn load_palette(&mut self, palette: &[Material; 256], on_disk: Option<Document>) -> (handle:
        usize)
        requires
            old(self).wf(),
        ensures
            final(self).wf(),
            final(self)@ == loaded(old(self)@, palette@, view_of(on_disk)),
            handle < final(self)@.keys.len(),
            final(self)@.keys[handle as int] == digest(palette.canonical()),
    {
        let hash_n = compute_n(palette);
        match self.palette_files.get(&hash_n) {
            Some(handle) => *handle,
            None => {
                assert(!self@.keys.contains(hash_n));
                let mut path = n_to_str(hash_n);
                path.append(".vox");
                let file = StoreFile::new(path, on_disk, palette);
                let handle = self.files.len();
                let ghost before = self@;
                self.keys.push(hash_n);
                self.files.push(file);
                self.palette_files.insert(hash_n, handle);
                proof {
                    assert(self@.files =~= before.files.push(file@));
                    assert(self@.keys =~= before.keys.push(hash_n));
                }
                handle
            },
        }
    }

    /// Asks for the documents of the given palettes, one after the other,
    /// and gives their handles in the order of the palettes. `on_disk`
    /// holds for each palette what was found on disk for it; it is looked at
    /// only for a palette whose document the store does not have yet.
    pub fn load_palettes(
        &mut self,
        palettes: &[&[Material; 256]],
        on_disk: Vec<Option<Document>>,
    ) -> (handles: Vec<usize>)
        requires
            old(self).wf(),
        ensures
            final(self).wf(),
            final(self)@ == loaded_all(
                old(self)@,
                Seq::new(palettes@.len(), |k: int| palettes@[k]@),
                Seq::new(on_disk@.len(), |k: int| view_of(on_disk@[k])),
                palettes@.len(),
            ),
            handles@.len() == palettes@.len(),
            forall|k: int|
                0 <= k < palettes@.len() ==> (#[trigger] handles@[k]) < final(self)@.keys.len()
                    && final(self)@.keys[handles@[k] as int] == digest(palettes@[k].canonical()),
    {
        let ghost start = self@;
        let ghost all = Seq::new(palettes@.len(), |k: int| palettes@[k]@);
        let ghost disk = Seq::new(on_disk@.len(), |k: int| view_of(on_disk@[k]));
        let mut on_disk = on_disk;
        let mut handles: Vec<usize> = Vec::new();
        let mut k: usize = 0;
        while k < palettes.len()
            invariant
                k <= palettes@.len(),
                self.wf(),
                all == Seq::new(palettes@.len(), |k: int| palettes@[k]@),
                self@ == loaded_all(start, all, disk, k as nat),
                handles@.len() == k,
                on_disk@.len() == if disk.len() >= k {
                    disk.len() - k
                } else {
                    0
                },
                forall|n: int|
                    0 <= n < on_disk@.len() ==> view_of(#[trigger] on_disk@[n]) == disk[k + n],
                forall|n: int|
                    0 <= n < k ==> (#[trigger] handles@[n]) < self@.keys.len()
                        && self@.keys[handles@[n] as int] == digest(palettes@[n].canonical()),
            decreases palettes@.len() - k,
        {
            let found = if on_disk.len() > 0 {
                on_disk.remove(0)
            } else {
                None
            };
            let ghost before = self@;
            let handle = self.load_palette(palettes[k], found);
            proof {
                assert(before.keys.len() <= self@.keys.len());
                assert forall|n: int| 0 <= n < k implies (#[trigger] handles@[n]) < self@.keys.len()
                    && self@.keys[handles@[n] as int] == digest(palettes@[n].canonical()) by {
                    assert(self@.keys[handles@[n] as int] == before.keys[handles@[n] as int]);
                }
            }
            handles.push(handle);
            k = k + 1;
        }
        handles
    }

    /// Puts a volume into the document with the given handle unless that
    /// document is known to hold it. `false`, and nothing done, where no
    /// document has the handle.
    pub fn store_voxel_data(&mut self, handle: usize, voxel_data: &Voxels) -> (done: bool)
        requires
            old(self).wf(),
        ensures
            final(self).wf(),
            done == (handle < old(self)@.files.len()),
            final(self)@.hash_vox_dir == old(self)@.hash_vox_dir,
            final(self)@.keys == old(self)@.keys,
            !done ==> final(self)@ == old(self)@,
            done ==> final(self)@.files == old(self)@.files.update(
                handle as int,
                inserted(
                    old(self)@.files[handle as int],
                    digest(voxel_data.canonical()),
                    node_for(*voxel_data, crate::hash::base64_url(crate::numeric::u64_le_bytes(
                        digest(voxel_data.canonical()),
                    ))),
                ),
            ),
    {
        if handle >= self.files.len() {
            return false;
        }
        let ghost before = self@;
        self.files[handle].store_voxel_data(voxel_data);
        assert(self@.files =~= before.files.update(handle as int, self.files@[handle as int]@));
        true
    }

    /// The handles of the documents that have changed since they were read
    /// or written, in ascending order.
    pub fn dirty_files(&self) -> (handles: Vec<usize>)
        ensures
            forall|i: int, j: int|
                0 <= i < j < handles@.len() ==> handles@[i] < handles@[j],
            forall|handle: usize|
                handles@.contains(handle) <==> handle < self@.files.len()
                    && self@.files[handle as int].dirty,
    {
        let mut handles: Vec<usize> = Vec::new();
        let mut i: usize = 0;
        while i < self.files.len()
            invariant
                i <= self.files@.len(),
                forall|a: int, b: int| 0 <= a < b < handles@.len() ==> handles@[a] < handles@[b],
                forall|a: int| 0 <= a < handles@.len() ==> handles@[a] < i,
                forall|handle: usize|
                    handles@.contains(handle) <==> handle < i && self.files@[handle as int]@.dirty,
            decreases self.files@.len() - i,
        {
            if self.files[i].is_dirty() {
                let ghost before = handles@;
                handles.push(i);
                assert forall|handle: usize|
                    handles@.contains(handle) <==> handle < i + 1
                        && self.files@[handle as int]@.dirty by {
                    if handles@.contains(handle) {
                        let at = choose|at: int| 0 <= at < handles@.len() && handles@[at] == handle;
                        if at < before.len() {
                            assert(before.contains(handle));
                        }
                    }
                    if handle < i && self.files@[handle as int]@.dirty {
                        assert(before.contains(handle));
                        let at = choose|at: int| 0 <= at < before.len() && before[at] == handle;
                        assert(handles@[at] == handle);
                    }
                    if handle == i {
                        assert(handles@[before.len() as int] == handle);
                    }
                }
            }
            i = i + 1;
        }
        handles
    }

    /// Notes that the document with the given handle has been written as
    /// it is now. Nothing is done where no document has the handle.
    pub fn mark_written(&mut self, handle: usize)
        requires
            old(self).wf(),
        ensures
            final(self).wf(),
            final(self)@.hash_vox_dir == old(self)@.hash_vox_dir,
            final(self)@.keys == old(self)@.keys,
            handle >= old(self)@.files.len() ==> final(self)@ == old(self)@,
            handle < old(self)@.files.len() ==> final(self)@.files == old(self)@.files.update(
                handle as int,
                StoreFileView {
                    path: old(self)@.files[handle as int].path,
                    document: old(self)@.files[handle as int].document,
                    shape_indices: old(self)@.files[handle as int].shape_indices,
                    dirty: false,
                },
            ),
    {
        if handle < self.files.len() {
            let ghost before = self@;
            self.files[handle].mark_written();
            assert(self@.files =~= before.files.update(handle as int, self.files@[handle as int]@));
        }
    }
}

} // verus!
