use std::marker::PhantomData;
use vstd::prelude::*;

verus! {

/// Identifies a source file.
#[derive(Debug, Clone, Copy, PartialEq, Eq, Hash, Structural)]
pub struct FileId(usize);

impl FileId {
    pub fn new(id: usize) -> (r: Self)
        ensures
            r.index() == id,
    {
        FileId(id)
    }

    pub closed spec fn index(self) -> usize {
        self.0
    }

    pub fn into_inner(&self) -> (r: usize)
        ensures
            r == self.index(),
    {
        self.0
    }
}

/// Identifies a node of the syntax tree: its number within its file, and the file.
#[derive(Debug, Clone, Copy, PartialEq, Eq, Hash, Structural)]
pub struct NodeId {
    node_id: usize,
    file_id: FileId,
}

impl NodeId {
    pub closed spec fn spec_node_id(self) -> usize {
        self.node_id
    }

    pub closed spec fn spec_file_id(self) -> FileId {
        self.file_id
    }

    pub fn into_inner(&self) -> (r: (usize, usize))
        ensures
            r == (self.spec_node_id(), self.spec_file_id().index()),
    {
        (self.node_id, self.file_id.into_inner())
    }

    pub fn file_id(&self) -> (r: &FileId)
        ensures
            *r == self.spec_file_id(),
    {
        &self.file_id
    }

    pub fn node_id(&self) -> (r: usize)
        ensures
            r == self.spec_node_id(),
    {
        self.node_id
    }

    pub fn new(node_id: usize, file_id: FileId) -> (r: Self)
        ensures
            r.spec_node_id() == node_id,
            r.spec_file_id() == file_id,
    {
        Self { node_id, file_id }
    }

    pub fn cast<T>(&self) -> (r: Id<T>)
        ensures
            r.node() == *self,
    {
        Id { id: *self, _marker: PhantomData }
    }
}

/// A node id tagged with the kind of node it names.
#[derive(Debug)]
pub struct Id<T> {
    id: NodeId,
    _marker: PhantomData<T>,
}

impl<T> Id<T> {
    /// The untyped id.
    pub closed spec fn node(self) -> NodeId {
        self.id
    }

    pub fn into_inner(&self) -> (r: (usize, usize))
        ensures
            r == (self.node().spec_node_id(), self.node().spec_file_id().index()),
    {
        self.id.into_inner()
    }

    pub fn file_id(&self) -> (r: &FileId)
        ensures
            *r == self.node().spec_file_id(),
    {
        self.id.file_id()
    }

    pub fn node_id(&self) -> (r: usize)
        ensures
            r == self.node().spec_node_id(),
    {
        self.id.node_id()
    }

    pub fn new(node_id: usize, file_id: FileId) -> (r: Id<T>)
        ensures
            r.node().spec_node_id() == node_id,
            r.node().spec_file_id() == file_id,
    {
        Id { id: NodeId::new(node_id, file_id), _marker: PhantomData }
    }

    /// A copy of this id.
    pub fn copied(&self) -> (r: Id<T>)
        ensures
            r == *self,
    {
        Id { id: self.id, _marker: PhantomData }
    }

    /// The untyped id.
    pub fn untyped(&self) -> (r: NodeId)
        ensures
            r == self.node(),
    {
        self.id
    }
}

} // verus!
