//! The document tree the preprocessor walks: an ordered sequence of
//! items, where chapters carry a name and mutable textual content and the
//! other items are structural markers with nothing to transform.

use vstd::prelude::*;

verus! {

/// A chapter: a named, content-bearing unit of the book.
pub struct Chapter {
    pub name: String,
    pub content: String,
}

/// Mathematical view of a [`Chapter`].
pub struct ChapterView {
    pub name: Seq<char>,
    pub content: Seq<char>,
}

impl View for Chapter {
    type V = ChapterView;

    open spec fn view(&self) -> ChapterView {
        ChapterView { name: self.name@, content: self.content@ }
    }
}

impl DeepView for Chapter {
    type V = ChapterView;

    open spec fn deep_view(&self) -> ChapterView {
        self.view()
    }
}

/// One item of a book: a chapter, or a structural marker that carries no
/// content.
pub enum BookItem {
    Chapter(Chapter),
    /// A separator between groups of chapters.
    Separator,
    /// The title of a part.
    PartTitle(String),
}

/// Mathematical view of a [`BookItem`].
pub enum BookItemView {
    Chapter(ChapterView),
    Separator,
    PartTitle(Seq<char>),
}

impl View for BookItem {
    type V = BookItemView;

    open spec fn view(&self) -> BookItemView {
        match self {
            BookItem::Chapter(c) => BookItemView::Chapter(c@),
            BookItem::Separator => BookItemView::Separator,
            BookItem::PartTitle(t) => BookItemView::PartTitle(t@),
        }
    }
}

impl DeepView for BookItem {
    type V = BookItemView;

    open spec fn deep_view(&self) -> BookItemView {
        self.view()
    }
}

/// A book: the ordered items of the document tree.
pub struct Book {
    pub items: Vec<BookItem>,
}

impl View for Book {
    type V = Seq<BookItemView>;

    open spec fn view(&self) -> Seq<BookItemView> {
        self.items.deep_view()
    }
}

} // verus!
