//! Inventory items: what a player carries, what a chest contains, and what
//! a door expects. A tag the level file uses but this library does not know
//! becomes the explicit `Unknown` item instead of failing the level load.

use vstd::prelude::*;

verus! {

/// A collectible item tag.
#[derive(Clone, Copy, PartialEq, Eq, Structural, Debug)]
pub enum Item {
    Gem,
    Boots,
    Key,
    Unknown,
}

/// The item a level-file name denotes; every unrecognized name maps to the
/// `Unknown` placeholder.
pub open spec fn spec_item_of_name(name: Seq<char>) -> Item {
    if name == "Gem"@ {
        Item::Gem
    } else if name == "Boots"@ {
        Item::Boots
    } else if name == "Key"@ {
        Item::Key
    } else {
        Item::Unknown
    }
}

impl Item {
    /// Parses one item name from the level file.
    pub fn from_name(name: &String) -> (r: Item)
        ensures
            r == spec_item_of_name(name@),
    {
        let gem: String = "Gem".to_owned();
        let boots: String = "Boots".to_owned();
        let key: String = "Key".to_owned();
        if *name == gem {
            Item::Gem
        } else if *name == boots {
            Item::Boots
        } else if *name == key {
            Item::Key
        } else {
            Item::Unknown
        }
    }

    /// Index of the item's icon in the icon atlas.
    pub fn atlas_index(self) -> (r: usize)
        ensures
            r == match self {
                Item::Boots => 18usize,
                Item::Key => 83usize,
                Item::Gem => 1483usize,
                Item::Unknown => 0usize,
            },
    {
        match self {
            Item::Boots => 18,
            Item::Key => 83,
            Item::Gem => 1483,
            Item::Unknown => 0,
        }
    }
}

/// `s` with the first occurrence of `item` removed, if any.
pub open spec fn remove_first(s: Seq<Item>, item: Item) -> Seq<Item>
    decreases s.len(),
{
    if s.len() == 0 {
        s
    } else if s[0] == item {
        s.drop_first()
    } else {
        seq![s[0]] + remove_first(s.drop_first(), item)
    }
}

/// `s` with the first occurrence of each element of `other` removed in turn.
pub open spec fn remove_each(s: Seq<Item>, other: Seq<Item>) -> Seq<Item>
    decreases other.len(),
{
    if other.len() == 0 {
        s
    } else {
        remove_each(remove_first(s, other[0]), other.drop_first())
    }
}

/// An ordered bag of items: a player's inventory, a chest's contents, or
/// the items a door expects.
#[derive(Clone, PartialEq, Eq, Debug)]
pub struct Items {
    items: Vec<Item>,
}

impl Items {
    pub closed spec fn view(self) -> Seq<Item> {
        self.items@
    }

    /// Whether every item of `other` is present here. Duplicates in `other`
    /// are not counted: each needs one witness, not distinct ones.
    pub open spec fn spec_contains_all(self, other: Items) -> bool {
        forall|i: int| 0 <= i < other.view().len() ==> self.view().contains(#[trigger] other.view()[i])
    }

    pub fn new() -> (r: Items)
        ensures
            r.view() =~= Seq::<Item>::empty(),
    {
        Items { items: Vec::new() }
    }

    /// The items in order.
    pub fn iter(&self) -> (r: &Vec<Item>)
        ensures
            r@ == self.view(),
    {
        &self.items
    }

    /// Adds one collected item.
    pub fn add(&mut self, item: Item)
        ensures
            final(self).view() == old(self).view().push(item),
    {
        self.items.push(item);
    }

    /// Whether the bag holds the item.
    pub fn contains(&self, item: Item) -> (r: bool)
        ensures
            r == self.view().contains(item),
    {
        let mut i: usize = 0;
        while i < self.items.len()
            invariant
                i <= self.items@.len(),
                forall|k: int| 0 <= k < i ==> self.items@[k] != item,
            decreases self.items@.len() - i,
        {
            if self.items[i] == item {
                proof {
                    assert(self.items@[i as int] == item);
                }
                return true;
            }
            i = i + 1;
        }
        false
    }

    /// Whether every item `other` lists is present here.
    pub fn contains_items(&self, other: &Items) -> (r: bool)
        ensures
            r == self.spec_contains_all(*other),
    {
        let mut i: usize = 0;
        while i < other.items.len()
            invariant
                i <= other.items@.len(),
                forall|k: int| 0 <= k < i ==> self.view().contains(#[trigger] other.items@[k]),
            decreases other.items@.len() - i,
        {
            if !self.contains(other.items[i]) {
                proof {
                    assert(!self.view().contains(other.view()[i as int]));
                }
                return false;
            }
            i = i + 1;
        }
        true
    }

    /// Removes the first occurrence of one item, if present.
    fn remove_one(&mut self, item: Item)
        ensures
            final(self).view() == remove_first(old(self).view(), item),
    {
        let ghost prev = self.items@;
        let mut i: usize = 0;
        while i < self.items.len()
            invariant
                self.items@ == prev,
                old(self).items@ == prev,
                i <= prev.len(),
                forall|k: int| 0 <= k < i ==> prev[k] != item,
            decreases prev.len() - i,
        {
            if self.items[i] == item {
                proof {
                    assert(prev[i as int] == item);
                }
                self.items.remove(i);
                proof {
                    lemma_remove_first_at(prev, item, i as int);
                }
                return ;
            }
            i = i + 1;
        }
        proof {
            lemma_remove_first_absent(prev, item);
        }
    }

    /// Removes the first occurrence of each item `other` lists, in order,
    /// as when a door consumes the items it expects.
    pub fn remove_items(&mut self, other: &Items)
        ensures
            final(self).view() == remove_each(old(self).view(), other.view()),
    {
        let mut i: usize = 0;
        while i < other.items.len()
            invariant
                i <= other.items@.len(),
                self.view() == remove_each(old(self).view(), other.items@.take(i as int)),
            decreases other.items@.len() - i,
        {
            self.remove_one(other.items[i]);
            proof {
                assert(other.items@.take(i + 1) =~= other.items@.take(i as int).push(
                    other.items@[i as int],
                ));
                lemma_remove_each_snoc(
                    old(self).view(),
                    other.items@.take(i as int),
                    other.items@[i as int],
                );
            }
            i = i + 1;
        }
        proof {
            assert(other.items@.take(other.items@.len() as int) =~= other.items@);
        }
    }

    /// Parses a list of item names from the level file.
    pub fn from_names(names: &Vec<String>) -> (r: Items)
        ensures
            r.view().len() == names@.len(),
            forall|i: int| 0 <= i < names@.len() ==> r.view()[i] == spec_item_of_name(names@[i]@),
    {
        let mut items: Vec<Item> = Vec::new();
        let mut i: usize = 0;
        while i < names.len()
            invariant
                i <= names@.len(),
                items@.len() == i,
                forall|k: int| 0 <= k < i ==> items@[k] == spec_item_of_name(names@[k]@),
            decreases names@.len() - i,
        {
            items.push(Item::from_name(&names[i]));
            i = i + 1;
        }
        Items { items }
    }
}

/// Removing the first occurrence from a list whose occurrence stands at
/// index `i` is removing index `i`.
proof fn lemma_remove_first_at(s: Seq<Item>, item: Item, i: int)
    requires
        0 <= i < s.len(),
        s[i] == item,
        forall|k: int| 0 <= k < i ==> s[k] != item,
    ensures
        remove_first(s, item) == s.remove(i),
    decreases i,
{
    if i == 0 {
        assert(remove_first(s, item) == s.drop_first());
        assert(s.drop_first() =~= s.remove(0));
    } else {
        lemma_remove_first_at(s.drop_first(), item, i - 1);
        assert(remove_first(s, item) == seq![s[0]] + s.drop_first().remove(i - 1));
        assert(seq![s[0]] + s.drop_first().remove(i - 1) =~= s.remove(i));
    }
}

/// Removing an absent item changes nothing.
proof fn lemma_remove_first_absent(s: Seq<Item>, item: Item)
    requires
        forall|k: int| 0 <= k < s.len() ==> s[k] != item,
    ensures
        remove_first(s, item) == s,
    decreases s.len(),
{
    if s.len() > 0 {
        lemma_remove_first_absent(s.drop_first(), item);
        assert(seq![s[0]] + s.drop_first() =~= s);
    }
}

/// Consuming one more listed item removes one more first occurrence.
proof fn lemma_remove_each_snoc(s: Seq<Item>, other: Seq<Item>, item: Item)
    ensures
        remove_each(s, other.push(item)) == remove_first(remove_each(s, other), item),
    decreases other.len(),
{
    reveal_with_fuel(remove_each, 3);
    if other.len() == 0 {
        assert(other.push(item).drop_first() =~= other);
    } else {
        assert(other.push(item).drop_first() =~= other.drop_first().push(item));
        lemma_remove_each_snoc(remove_first(s, other[0]), other.drop_first(), item);
    }
}

/// Opens a door when the player carries everything it expects: consumes
/// those items and reports success; otherwise leaves the inventory alone,
/// and the caller shows what is missing instead.
pub fn try_open_door(player: &mut Items, expected: &Items) -> (opened: bool)
    ensures
        opened == old(player).spec_contains_all(*expected),
        opened ==> final(player).view() == remove_each(old(player).view(), expected.view()),
        !opened ==> final(player).view() == old(player).view(),
{
    if player.contains_items(expected) {
        player.remove_items(expected);
        true
    } else {
        false
    }
}

/// Empties a chest into the player's inventory, in the chest's order.
pub fn collect_chest(player: &mut Items, chest: &Items) -> (count: usize)
    ensures
        final(player).view() == old(player).view() + chest.view(),
        count == chest.view().len(),
{
    let source = chest.iter();
    let mut i: usize = 0;
    while i < source.len()
        invariant
            i <= chest.view().len(),
            source@ == chest.view(),
            player.view() == old(player).view() + chest.view().take(i as int),
        decreases chest.view().len() - i,
    {
        player.add(source[i]);
        proof {
            assert(old(player).view() + chest.view().take(i + 1) =~= (old(player).view()
                + chest.view().take(i as int)).push(chest.view()[i as int]));
        }
        i = i + 1;
    }
    proof {
        assert(chest.view().take(chest.view().len() as int) =~= chest.view());
        assert(player.view() =~= old(player).view() + chest.view());
    }
    i
}

} // verus!
