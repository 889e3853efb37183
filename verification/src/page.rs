//! What a page shows: its content streams, fonts and resources.
use crate::font::{FontMap, Fonts};
use crate::object::{Dict, PdfDict};
use vstd::prelude::*;

verus! {

/// The content of a page. The content streams have their filters undone.
#[derive(Debug)]
pub struct PageContent {
    pub content_streams: Vec<Vec<u8>>,
    pub fonts: FontMap,
    pub resources: PdfDict,
}

/// What a page holds, as a mathematical value.
pub struct Page {
    pub content_streams: Seq<Seq<u8>>,
    pub fonts: Fonts,
    pub resources: Dict,
}

/// The bytes of a run of streams.
pub open spec fn stream_models(streams: Seq<Vec<u8>>) -> Seq<Seq<u8>> {
    Seq::new(streams.len(), |i: int| streams[i]@)
}

impl PageContent {
    /// The value of the page.
    pub open spec fn model(self) -> Page {
        Page {
            content_streams: stream_models(self.content_streams@),
            fonts: self.fonts.model(),
            resources: self.resources.model(),
        }
    }

    /// A page without content.
    pub fn new() -> (r: PageContent)
        ensures
            r.model() == (Page {
                content_streams: Seq::empty(),
                fonts: Seq::empty(),
                resources: Seq::empty(),
            }),
    {
        let r = PageContent {
            content_streams: Vec::new(),
            fonts: FontMap::new(),
            resources: PdfDict::new(),
        };
        assert(stream_models(r.content_streams@) =~= Seq::<Seq<u8>>::empty());
        r
    }
}

/// The values of a run of pages.
pub open spec fn page_models(pages: Seq<PageContent>) -> Seq<Page> {
    Seq::new(pages.len(), |i: int| pages[i].model())
}

} // verus!
