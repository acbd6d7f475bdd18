//! The asset store: the resource index that names each texture's file, the
//! textures decoded so far, and the loader that fetches them.
use vstd::prelude::*;
use std::collections::HashMap;
use crate::texture::Texture;

verus! {

/// One entry of the resource index: a texture id, its name and its path.
#[derive(Clone, Debug, PartialEq, Eq)]
pub struct ResourceImage {
    pub id: u32,
    pub name: String,
    pub path: String,
}

/// The list of textures to load.
#[derive(Clone, Debug, PartialEq, Eq)]
pub struct ResourceIndex {
    pub images: Vec<ResourceImage>,
}

/// Where textures come from: a local directory, a background download, or
/// anything else that can fill the texture table.
pub trait FileLoader {
    /// Loads all textures listed in the index into `textures`, by id.
    fn load_textures(&mut self, resource_index: &ResourceIndex, textures: &mut HashMap<u32, Texture>);

    /// Fetches the index of the textures to load, or `None` where it is not
    /// available yet.
    fn load_index_file(&mut self) -> Option<ResourceIndex>;
}

/// The textures by id, the index they are listed in, and their loader.
pub struct Assets<L: FileLoader> {
    pub root: String,
    pub resources: Option<ResourceIndex>,
    pub textures: HashMap<u32, Texture>,
    pub loader: L,
}

impl<L: FileLoader> Assets<L> {
    /// An empty store under `root`.
    pub fn new(root: String, loader: L) -> (r: Assets<L>)
        ensures
            r.root == root,
            r.resources is None,
            r.textures@ == Map::<u32, Texture>::empty(),
    {
        Assets { root, resources: None, textures: HashMap::new(), loader }
    }

    /// Asks the loader for the resource index; the textures stay as they are.
    pub fn init(&mut self)
        ensures
            final(self).root == old(self).root,
            final(self).textures@ == old(self).textures@,
    {
        self.resources = self.loader.load_index_file();
    }

    /// Has the loader load every texture of the index.
    pub fn load(&mut self)
        requires
            old(self).resources is Some,
        ensures
            final(self).root == old(self).root,
            final(self).resources == old(self).resources,
    {
        match &self.resources {
            Some(resources) => {
                self.loader.load_textures(resources, &mut self.textures);
            },
            None => {},
        }
    }

    /// The texture with id `id`, or `None` where it is not loaded yet.
    pub fn texture(&self, id: u32) -> (r: Option<&Texture>)
        ensures
            r matches Some(t) ==> self.textures@.contains_key(id) && self.textures@[id] == *t,
            r is None ==> !self.textures@.contains_key(id),
    {
        proof {
            broadcast use vstd::std_specs::hash::group_hash_axioms;
        }
        self.textures.get(&id)
    }
}

} // verus!
