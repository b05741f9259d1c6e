//! Things that hold layers, and how many layers they stand for in a file.

use vstd::prelude::*;
use crate::layer::{GroupInfo, Layer, LayerType};

verus! {

/// Something that holds layers: a document or a group.
pub trait LayerContainer {
    /// The layers it holds.
    spec fn layer_list(&self) -> Seq<Layer>;

    /// Returns the layers.
    fn layers(&self) -> (r: &Vec<Layer>)
        ensures
            r@ == self.layer_list(),
    ;

    /// The number of layers in a file, counting each group twice (the group
    /// and the marker that closes it); at most `usize::MAX`.
    fn number_of_layers(&self) -> (r: usize)
        ensures
            r == capped(list_count(self.layer_list(), self.layer_list().len())),
    ;
}


/// The number of layers a layer stands for in a file: one for an image
/// layer; for a group, its children's and two of its own (the group and the
/// marker that closes it).
pub open spec fn layer_count(l: Layer) -> nat
    decreases l, 0nat,
{
    match l.layer_type {
        LayerType::Image => 1,
        LayerType::Group(g) => list_count(g.layers@, g.layers@.len()) + 2,
    }
}

/// The number of layers that the first `k` layers of a list stand for.
pub open spec fn list_count(ls: Seq<Layer>, k: nat) -> nat
    decreases ls, k,
{
    if k == 0 || k > ls.len() {
        0
    } else {
        list_count(ls, (k - 1) as nat) + layer_count(ls[k - 1])
    }
}

/// The number of image layers in a layer, groups searched all the way down.
pub open spec fn image_layer_count(l: Layer) -> nat
    decreases l, 0nat,
{
    match l.layer_type {
        LayerType::Image => 1,
        LayerType::Group(g) => list_image_layer_count(g.layers@, g.layers@.len()),
    }
}

pub open spec fn list_image_layer_count(ls: Seq<Layer>, k: nat) -> nat
    decreases ls, k,
{
    if k == 0 || k > ls.len() {
        0
    } else {
        list_image_layer_count(ls, (k - 1) as nat) + image_layer_count(ls[k - 1])
    }
}

/// The number of groups in a layer, itself included, groups searched all the way down.
pub open spec fn group_count(l: Layer) -> nat
    decreases l, 0nat,
{
    match l.layer_type {
        LayerType::Image => 0,
        LayerType::Group(g) => list_group_count(g.layers@, g.layers@.len()) + 1,
    }
}

pub open spec fn list_group_count(ls: Seq<Layer>, k: nat) -> nat
    decreases ls, k,
{
    if k == 0 || k > ls.len() {
        0
    } else {
        list_group_count(ls, (k - 1) as nat) + group_count(ls[k - 1])
    }
}

/// A layer stands for its image layers and twice its groups.
pub proof fn lemma_layer_count(l: Layer)
    ensures
        layer_count(l) == image_layer_count(l) + 2 * group_count(l),
    decreases l, 0nat,
{
    match l.layer_type {
        LayerType::Image => {},
        LayerType::Group(g) => {
            lemma_list_count(g.layers@, g.layers@.len());
        },
    }
}

/// A list of layers stands for its image layers and twice its groups.
pub proof fn lemma_list_count(ls: Seq<Layer>, k: nat)
    ensures
        list_count(ls, k) == list_image_layer_count(ls, k) + 2 * list_group_count(ls, k),
    decreases ls, k,
{
    if k > 0 && k <= ls.len() {
        lemma_list_count(ls, (k - 1) as nat);
        lemma_layer_count(ls[k - 1]);
    }
}

/// A count, or `usize::MAX` when it does not fit.
pub open spec fn capped(n: nat) -> int {
    if n > usize::MAX {
        usize::MAX as int
    } else {
        n as int
    }
}

/// The number of layers a layer stands for, at most `usize::MAX`.
pub fn number_of_layers_in(layer: &Layer) -> (r: usize)
    ensures
        r == capped(layer_count(*layer)),
    decreases layer, 1nat,
{
    match &layer.layer_type {
        LayerType::Image => 1,
        LayerType::Group(group) => number_of_layers_of(&group.layers).saturating_add(2),
    }
}

/// The number of layers a list of layers stands for, at most `usize::MAX`.
pub fn number_of_layers_of(layers: &Vec<Layer>) -> (r: usize)
    ensures
        r == capped(list_count(layers@, layers@.len())),
    decreases layers, 0nat,
{
    let mut count: usize = 0;
    let mut i: usize = 0;
    while i < layers.len()
        invariant
            i <= layers@.len(),
            count == capped(list_count(layers@, i as nat)),
        decreases layers@.len() - i,
    {
        proof {
            assert(decreases_to!(layers => layers[i as int]));
        }
        count = count.saturating_add(number_of_layers_in(&layers[i]));
        i = i + 1;
    }
    count
}

impl LayerContainer for GroupInfo {
    open spec fn layer_list(&self) -> Seq<Layer> {
        self.layers@
    }

    fn layers(&self) -> (r: &Vec<Layer>) {
        &self.layers
    }

    fn number_of_layers(&self) -> (r: usize) {
        number_of_layers_of(&self.layers)
    }
}

} // verus!
