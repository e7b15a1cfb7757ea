use vstd::prelude::*;

use crate::component::{spec_component, Component, ComponentView};
use crate::key::{spec_key, Key, KeyView};

verus! {

/// An action triggered when a user clicks a component.
#[derive(Debug, PartialEq, Eq)]
pub enum ClickEvent {
    /// Runs a command as if the user typed it in chat. The command must start
    /// with a leading `/`.
    RunCommand(String),
    /// Inserts text into the chat bar.
    SuggestCommand(String),
    /// Changes the page of a book. Stored as a signed value because incoming
    /// serial data may carry negative pages, though they have no effect.
    ChangePage(i32),
    /// Copies text to the user's clipboard.
    CopyToClipboard(String),
}

/// The mathematical model of a [`ClickEvent`].
#[verifier::ext_equal]
pub enum ClickEventView {
    /// Model of a run-command action.
    RunCommand(Seq<char>),
    /// Model of a suggest-command action.
    SuggestCommand(Seq<char>),
    /// Model of a change-page action.
    ChangePage(int),
    /// Model of a copy-to-clipboard action.
    CopyToClipboard(Seq<char>),
}

/// The model of a click action.
pub open spec fn spec_click_event(e: ClickEvent) -> ClickEventView {
    match e {
        ClickEvent::RunCommand(c) => ClickEventView::RunCommand(c@),
        ClickEvent::SuggestCommand(c) => ClickEventView::SuggestCommand(c@),
        ClickEvent::ChangePage(p) => ClickEventView::ChangePage(p as int),
        ClickEvent::CopyToClipboard(t) => ClickEventView::CopyToClipboard(t@),
    }
}

impl ClickEvent {
    /// Creates a click action that runs a command.
    pub fn run_command(command: String) -> (r: ClickEvent)
        ensures
            spec_click_event(r) == ClickEventView::RunCommand(command@),
    {
        ClickEvent::RunCommand(command)
    }

    /// Creates a click action that inserts text into the chat bar.
    pub fn suggest_command(command: String) -> (r: ClickEvent)
        ensures
            spec_click_event(r) == ClickEventView::SuggestCommand(command@),
    {
        ClickEvent::SuggestCommand(command)
    }

    /// Creates a click action that changes the page of a book. Outgoing pages
    /// are never negative, so this accepts an unsigned page number.
    pub fn change_page(page: u16) -> (r: ClickEvent)
        ensures
            spec_click_event(r) == ClickEventView::ChangePage(page as int),
    {
        ClickEvent::ChangePage(page as i32)
    }

    /// Creates a click action that copies text to the clipboard.
    pub fn copy(text: String) -> (r: ClickEvent)
        ensures
            spec_click_event(r) == ClickEventView::CopyToClipboard(text@),
    {
        ClickEvent::CopyToClipboard(text)
    }
}

impl Clone for ClickEvent {
    /// Clones the action; the copy has the same model.
    fn clone(&self) -> (r: Self)
        ensures
            spec_click_event(r) == spec_click_event(*self),
    {
        match self {
            ClickEvent::RunCommand(c) => ClickEvent::RunCommand(c.clone()),
            ClickEvent::SuggestCommand(c) => ClickEvent::SuggestCommand(c.clone()),
            ClickEvent::ChangePage(p) => ClickEvent::ChangePage(*p),
            ClickEvent::CopyToClipboard(t) => ClickEvent::CopyToClipboard(t.clone()),
        }
    }
}

/// Content shown when a user hovers over a component.
#[derive(Debug, PartialEq, Eq)]
pub enum HoverEvent {
    /// Shows another component.
    ShowText(Box<Component>),
    /// Shows an item stack.
    ShowItem(Box<ItemHover>),
    /// Shows an entity.
    ShowEntity(Box<EntityHover>),
}

/// The mathematical model of a [`HoverEvent`].
#[verifier::ext_equal]
pub enum HoverEventView {
    /// Model of a shown component.
    ShowText(Box<ComponentView>),
    /// Model of a shown item stack.
    ShowItem(ItemHoverView),
    /// Model of a shown entity.
    ShowEntity(Box<EntityHoverView>),
}

/// The model of a hover action.
pub open spec fn spec_hover_event(e: HoverEvent) -> HoverEventView
    decreases e,
{
    match e {
        HoverEvent::ShowText(c) => HoverEventView::ShowText(Box::new(spec_component(*c))),
        HoverEvent::ShowItem(h) => HoverEventView::ShowItem(spec_item_hover(*h)),
        HoverEvent::ShowEntity(h) => HoverEventView::ShowEntity(Box::new(spec_entity_hover(*h))),
    }
}

impl HoverEvent {
    /// Creates a hover action that shows another component.
    pub fn show_text(text: Component) -> (r: HoverEvent)
        ensures
            spec_hover_event(r) == HoverEventView::ShowText(Box::new(spec_component(text))),
    {
        HoverEvent::ShowText(Box::new(text))
    }

    /// Creates a hover action that shows an entity.
    pub fn show_entity(hover: EntityHover) -> (r: HoverEvent)
        ensures
            spec_hover_event(r) == HoverEventView::ShowEntity(Box::new(spec_entity_hover(hover))),
    {
        HoverEvent::ShowEntity(Box::new(hover))
    }

    /// Creates a hover action that shows an item stack.
    pub fn show_item(hover: ItemHover) -> (r: HoverEvent)
        ensures
            spec_hover_event(r) == HoverEventView::ShowItem(spec_item_hover(hover)),
    {
        HoverEvent::ShowItem(Box::new(hover))
    }
}

impl Clone for HoverEvent {
    /// Clones the action; the copy has the same model.
    fn clone(&self) -> (r: Self)
        ensures
            spec_hover_event(r) == spec_hover_event(*self),
        decreases *self,
    {
        match self {
            HoverEvent::ShowText(c) => HoverEvent::ShowText(Box::new((**c).clone())),
            HoverEvent::ShowItem(h) => HoverEvent::ShowItem(Box::new((**h).clone())),
            HoverEvent::ShowEntity(h) => HoverEvent::ShowEntity(Box::new((**h).clone())),
        }
    }
}

/// The data for showing an item stack on hover.
#[derive(Debug, PartialEq, Eq)]
pub struct ItemHover {
    /// The item's material, as a namespaced key.
    pub id: Key,
    /// The number of items in the stack.
    pub count: i32,
    /// Additional item properties, carried as their serial text form, if any.
    pub tag: Option<String>,
}

/// The mathematical model of an [`ItemHover`].
#[verifier::ext_equal]
pub struct ItemHoverView {
    /// Model of the material key.
    pub id: KeyView,
    /// Model of the stack count.
    pub count: int,
    /// Model of the carried item properties.
    pub tag: Option<Seq<char>>,
}

/// The model of an item hover.
pub open spec fn spec_item_hover(h: ItemHover) -> ItemHoverView {
    ItemHoverView {
        id: spec_key(h.id),
        count: h.count as int,
        tag: match h.tag {
            Some(t) => Some(t@),
            None => None,
        },
    }
}

impl ItemHover {
    /// Creates an item hover with the provided material and stack count.
    pub fn new(id: Key, count: i32) -> (r: ItemHover)
        ensures
            spec_item_hover(r) == (ItemHoverView {
                id: spec_key(id),
                count: count as int,
                tag: None,
            }),
    {
        ItemHover { id, count, tag: None }
    }

    /// Creates an item hover with a properties tag as well as a material and
    /// stack count.
    pub fn with_tag(id: Key, count: i32, tag: String) -> (r: ItemHover)
        ensures
            spec_item_hover(r) == (ItemHoverView {
                id: spec_key(id),
                count: count as int,
                tag: Some(tag@),
            }),
    {
        ItemHover { id, count, tag: Some(tag) }
    }
}

impl Clone for ItemHover {
    /// Clones the item hover; the copy has the same model.
    fn clone(&self) -> (r: Self)
        ensures
            spec_item_hover(r) == spec_item_hover(*self),
    {
        let r = ItemHover {
            id: self.id.clone(),
            count: self.count,
            tag: match &self.tag {
                Some(t) => Some(t.clone()),
                None => None,
            },
        };
        proof {
            assert(spec_item_hover(r) =~= spec_item_hover(*self));
        }
        r
    }
}

/// The data for showing an entity on hover.
#[derive(Debug, PartialEq, Eq)]
pub struct EntityHover {
    /// The entity's 128-bit unique identifier.
    pub id: u128,
    /// The entity's display name.
    pub name: Component,
    /// The entity's type.
    pub entity_type: Key,
}

/// The mathematical model of an [`EntityHover`].
#[verifier::ext_equal]
pub struct EntityHoverView {
    /// Model of the unique identifier.
    pub id: u128,
    /// Model of the display name.
    pub name: Box<ComponentView>,
    /// Model of the entity type key.
    pub entity_type: KeyView,
}

/// The model of an entity hover.
pub open spec fn spec_entity_hover(h: EntityHover) -> EntityHoverView
    decreases h,
{
    EntityHoverView {
        id: h.id,
        name: Box::new(spec_component(h.name)),
        entity_type: spec_key(h.entity_type),
    }
}

impl EntityHover {
    /// Creates an entity hover with the provided identifier, display name and
    /// entity type.
    pub fn new(id: u128, name: Component, ty: Key) -> (r: EntityHover)
        ensures
            spec_entity_hover(r) == (EntityHoverView {
                id: id,
                name: Box::new(spec_component(name)),
                entity_type: spec_key(ty),
            }),
    {
        EntityHover { id, name, entity_type: ty }
    }
}

impl Clone for EntityHover {
    /// Clones the entity hover; the copy has the same model.
    fn clone(&self) -> (r: Self)
        ensures
            spec_entity_hover(r) == spec_entity_hover(*self),
        decreases *self,
    {
        let r = EntityHover {
            id: self.id,
            name: self.name.clone(),
            entity_type: self.entity_type.clone(),
        };
        proof {
            assert(spec_entity_hover(r) =~= spec_entity_hover(*self));
        }
        r
    }
}

} // verus!
