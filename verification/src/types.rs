//! The data model: recipes, the two wire messages, and the errors.
//!
//! Each executable type has a mathematical view: ids become unbounded
//! naturals and text fields become character sequences, so that contracts
//! can speak about values rather than allocations.

use vstd::prelude::*;

verus! {

/// One recipe record, owned by the peer that created it.
#[derive(Debug)]
pub struct Recipe {
    pub id: usize,
    pub name: String,
    pub ingredients: String,
    pub instructions: String,
    pub public: bool,
}

/// Mathematical view of a [`Recipe`].
pub struct RecipeView {
    pub id: nat,
    pub name: Seq<char>,
    pub ingredients: Seq<char>,
    pub instructions: Seq<char>,
    pub public: bool,
}

impl View for Recipe {
    type V = RecipeView;

    open spec fn view(&self) -> RecipeView {
        RecipeView {
            id: self.id as nat,
            name: self.name@,
            ingredients: self.ingredients@,
            instructions: self.instructions@,
            public: self.public,
        }
    }
}

impl DeepView for Recipe {
    type V = RecipeView;

    open spec fn deep_view(&self) -> RecipeView {
        self.view()
    }
}

impl Clone for Recipe {
    fn clone(&self) -> (r: Self)
        ensures
            r == *self,
    {
        Recipe {
            id: self.id,
            name: self.name.clone(),
            ingredients: self.ingredients.clone(),
            instructions: self.instructions.clone(),
            public: self.public,
        }
    }
}

/// Which peers a list request targets: everyone, or one peer by identity.
#[derive(Debug)]
pub enum ListMode {
    All,
    One(String),
}

/// Mathematical view of a [`ListMode`].
pub enum ListModeView {
    All,
    One(Seq<char>),
}

impl View for ListMode {
    type V = ListModeView;

    open spec fn view(&self) -> ListModeView {
        match self {
            ListMode::All => ListModeView::All,
            ListMode::One(peer) => ListModeView::One(peer@),
        }
    }
}

impl DeepView for ListMode {
    type V = ListModeView;

    open spec fn deep_view(&self) -> ListModeView {
        self.view()
    }
}

impl Clone for ListMode {
    fn clone(&self) -> (r: Self)
        ensures
            r == *self,
    {
        match self {
            ListMode::All => ListMode::All,
            ListMode::One(peer) => ListMode::One(peer.clone()),
        }
    }
}

/// A query for recipe listings, carried over the broadcast topic.
#[derive(Debug)]
pub struct ListRequest {
    pub mode: ListMode,
}

/// Mathematical view of a [`ListRequest`].
pub struct ListRequestView {
    pub mode: ListModeView,
}

impl View for ListRequest {
    type V = ListRequestView;

    open spec fn view(&self) -> ListRequestView {
        ListRequestView { mode: self.mode@ }
    }
}

impl DeepView for ListRequest {
    type V = ListRequestView;

    open spec fn deep_view(&self) -> ListRequestView {
        self.view()
    }
}

/// A reply to a [`ListRequest`]: the public recipes of one peer, addressed
/// to a single receiver although every subscriber sees the bytes.
#[derive(Debug)]
pub struct ListResponse {
    pub mode: ListMode,
    pub data: Vec<Recipe>,
    pub receiver: String,
}

/// Mathematical view of a [`ListResponse`].
pub struct ListResponseView {
    pub mode: ListModeView,
    pub data: Seq<RecipeView>,
    pub receiver: Seq<char>,
}

impl View for ListResponse {
    type V = ListResponseView;

    open spec fn view(&self) -> ListResponseView {
        ListResponseView { mode: self.mode@, data: self.data.deep_view(), receiver: self.receiver@ }
    }
}

impl DeepView for ListResponse {
    type V = ListResponseView;

    open spec fn deep_view(&self) -> ListResponseView {
        self.view()
    }
}

/// What a broadcast payload turned out to be.  A payload matching neither
/// schema is `Unrecognized` and is dropped without an error: the shared
/// topic may carry payloads from incompatible peer versions.
#[derive(Debug)]
pub enum Decoded {
    Response(ListResponse),
    Request(ListRequest),
    Unrecognized,
}

/// Mathematical view of a [`Decoded`].
pub enum DecodedView {
    Response(ListResponseView),
    Request(ListRequestView),
    Unrecognized,
}

impl View for Decoded {
    type V = DecodedView;

    open spec fn view(&self) -> DecodedView {
        match self {
            Decoded::Response(resp) => DecodedView::Response(resp@),
            Decoded::Request(req) => DecodedView::Request(req@),
            Decoded::Unrecognized => DecodedView::Unrecognized,
        }
    }
}

/// A malformed operator command.  Reported to the operator; never fatal.
#[derive(Debug, PartialEq, Eq, Structural, Clone, Copy)]
pub enum UserInputError {
    /// `create r` was given fewer than three `|`-separated fields.
    TooFewFields,
    /// `publish r` was given a non-numeric (or out of range) id.
    InvalidId,
    /// The line matched no known command.
    UnknownCommand,
}

} // verus!
