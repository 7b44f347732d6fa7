//! Entities: their kinds, as the configuration gives them, and their instances.

use vstd::prelude::*;
use crate::snippet::Snippet;
use crate::textitem::TextItem;

verus! {

/// A kind of entity: how it is drawn and its scripts.
pub struct Entity {
    init: Snippet,
    action: Snippet,
    post_action: Snippet,
    delete: Snippet,
    tile: TextItem,
}

impl Entity {
    /// An entity kind drawn with `tile`.
    pub fn new(tile: &str, init: Snippet, action: Snippet, post_action: Snippet, delete: Snippet) -> (r:
        Entity)
        ensures
            r.tile()@.text == tile@,
            r.tile()@.colour == crate::textitem::TextColour::Default,
            r.tile()@.options.len() == 0,
            r.init_script() == init,
            r.action_script() == action,
            r.post_action_script() == post_action,
            r.delete_script() == delete,
    {
        Entity {
            tile: TextItem::new_tile(tile.to_owned()),
            init: init,
            action: action,
            post_action: post_action,
            delete: delete,
        }
    }

    /// How instances of this kind are drawn.
    pub closed spec fn tile(&self) -> TextItem {
        self.tile
    }

    /// The script run when an instance is created.
    pub closed spec fn init_script(&self) -> Snippet {
        self.init
    }

    /// The script run as an instance's action.
    pub closed spec fn action_script(&self) -> Snippet {
        self.action
    }

    /// The script run after the actions.
    pub closed spec fn post_action_script(&self) -> Snippet {
        self.post_action
    }

    /// The script run when an instance is deleted.
    pub closed spec fn delete_script(&self) -> Snippet {
        self.delete
    }

    /// A new instance of this kind, named `name`, drawn as this kind, with
    /// `fields` as its data.
    pub fn new_instance<V>(&self, name: &str, fields: V) -> (r: EntityInst<V>)
        ensures
            r.name() == name@,
            r.tile()@ == self.tile()@,
            r.data() == fields,
    {
        EntityInst { name: name.to_owned(), tile: self.tile.duplicate(), fields: fields }
    }

    /// The script run when an instance is created.
    pub fn init(&self) -> (r: &Snippet)
        ensures
            *r == self.init_script(),
    {
        &self.init
    }

    /// The script run as an instance's action.
    pub fn action(&self) -> (r: &Snippet)
        ensures
            *r == self.action_script(),
    {
        &self.action
    }

    /// The script run after the actions.
    pub fn post_action(&self) -> (r: &Snippet)
        ensures
            *r == self.post_action_script(),
    {
        &self.post_action
    }

    /// The script run when an instance is deleted.
    pub fn delete(&self) -> (r: &Snippet)
        ensures
            *r == self.delete_script(),
    {
        &self.delete
    }
}

/// An instance of an entity: the name of its kind, how it is drawn, and the
/// data that its scripts keep (of type `V`).
#[derive(Clone)]
pub struct EntityInst<V> {
    name: String,
    tile: TextItem,
    fields: V,
}

impl<V> EntityInst<V> {
    /// The name of the instance's kind.
    pub closed spec fn name(&self) -> Seq<char> {
        self.name@
    }

    /// How the instance is drawn.
    pub closed spec fn tile(&self) -> TextItem {
        self.tile
    }

    /// The instance's data.
    pub closed spec fn data(&self) -> V {
        self.fields
    }

    /// The name of the instance's kind.
    pub fn get_name(&self) -> (r: String)
        ensures
            r@ == self.name(),
    {
        self.name.clone()
    }

    /// The instance with `data` as its data.
    pub closed spec fn with_data(self, data: V) -> EntityInst<V> {
        EntityInst { fields: data, ..self }
    }

    /// The same instance with other data keeps its name and tile.
    pub proof fn lemma_with_data(self, data: V)
        ensures
            self.with_data(data).data() == data,
            self.with_data(data).name() == self.name(),
            self.with_data(data).tile() == self.tile(),
    {
    }

    /// Replaces the instance's data.
    pub fn set_data(&mut self, data: V)
        ensures
            *final(self) == old(self).with_data(data),
            final(self).data() == data,
            final(self).name() == old(self).name(),
            final(self).tile() == old(self).tile(),
    {
        self.fields = data;
    }

    /// The instance's data, cloned.
    pub fn get_data(&self) -> (r: V) where V: Clone
        ensures
            cloned(self.data(), r),
    {
        self.fields.clone()
    }

    /// How the instance is drawn, copied.
    pub fn get_tile(&self) -> (r: TextItem)
        ensures
            r@ == self.tile()@,
    {
        self.tile.duplicate()
    }

    /// A copy of the instance whose data is a clone.
    pub fn duplicate(&self) -> (r: EntityInst<V>) where V: Clone
        ensures
            r.name() == self.name(),
            r.tile()@ == self.tile()@,
            cloned(self.data(), r.data()),
    {
        EntityInst { name: self.name.clone(), tile: self.tile.duplicate(), fields: self.fields.clone() }
    }
}

} // verus!
