use vstd::prelude::*;

verus! {

/// A filter that posts each image to an HTTP classification service and
/// keeps it when the service labels it a comic.
pub struct HttpClassifierFilter {
    url: String,
}

/// The ways of deciding whether a fetched image is kept.
pub enum ImageFilter {
    HttpClassifier(HttpClassifierFilter),
}

/// The label under which the classification service reports a comic.
pub open spec fn comic_label() -> Seq<char> {
    "comic"@
}

impl HttpClassifierFilter {
    /// Address of the classification service.
    pub closed spec fn spec_url(&self) -> Seq<char> {
        self.url@
    }

    pub fn new(url: String) -> (r: Self)
        ensures
            r.spec_url() == url@,
    {
        HttpClassifierFilter { url }
    }

    pub fn url(&self) -> (r: &String)
        ensures
            r@ == self.spec_url(),
    {
        &self.url
    }

    /// The verdict on an image given the label that the service answered
    /// with, or `None` where the request or its answer failed: kept exactly
    /// when the label is the comic label.
    pub fn accepts(&self, label: Option<&String>) -> (r: bool)
        ensures
            r == (label is Some && label->0@ == comic_label()),
    {
        match label {
            Some(l) => {
                let comic: String = "comic".to_owned();
                l.eq(&comic)
            },
            None => false,
        }
    }
}

impl ImageFilter {
    pub fn from(filter: HttpClassifierFilter) -> (r: Self)
        ensures
            r == ImageFilter::HttpClassifier(filter),
    {
        ImageFilter::HttpClassifier(filter)
    }

    /// The verdict of the filter on an answered label; see
    /// `HttpClassifierFilter::accepts`.
    pub fn accepts(&self, label: Option<&String>) -> (r: bool)
        ensures
            r == (label is Some && label->0@ == comic_label()),
    {
        match self {
            ImageFilter::HttpClassifier(filter) => filter.accepts(label),
        }
    }
}

} // verus!
