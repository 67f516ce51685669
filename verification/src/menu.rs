//! Menu models: what a modal menu shows and which actions it offers. The
//! host renders a model and reports the chosen action back; the library
//! only decides content and bookkeeping.

use vstd::prelude::*;

verus! {

/// An action a menu button triggers.
#[derive(Clone, Copy, PartialEq, Eq, Structural, Debug)]
pub enum MenuAction {
    QuitGame,
}

/// One modal menu: a title and its buttons, in display order.
pub struct MenuModel {
    pub title: String,
    pub actions: Vec<MenuAction>,
}

/// The modal menu shown when the player has died: its title and a single
/// way out, back to the outer menu.
pub fn death_menu() -> (m: MenuModel)
    ensures
        m.title@ == "You died !"@,
        m.actions@ =~= seq![MenuAction::QuitGame],
{
    let mut actions: Vec<MenuAction> = Vec::new();
    actions.push(MenuAction::QuitGame);
    MenuModel { title: "You died !".to_owned(), actions }
}

/// Opens the death menu: appends it to the stack of open menus.
pub fn spawn_death_menu(menus: &mut Vec<MenuModel>)
    ensures
        final(menus)@.len() == old(menus)@.len() + 1,
        forall|i: int| 0 <= i < old(menus)@.len() ==> final(menus)@[i] == old(menus)@[i],
        final(menus)@[old(menus)@.len() as int].title@ == "You died !"@,
        final(menus)@[old(menus)@.len() as int].actions@ =~= seq![MenuAction::QuitGame],
{
    menus.push(death_menu());
}

} // verus!
