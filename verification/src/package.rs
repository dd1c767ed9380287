use std::collections::HashMap;
use vstd::prelude::*;

verus! {

/// A reference to an icon by its name in the icon theme.
///
/// Only the name travels with a package; whoever draws the icon looks it up
/// and loads the image.
#[derive(Clone, Debug)]
pub struct IconName {
    pub name: String,
}

impl View for IconName {
    type V = Seq<char>;

    open spec fn view(&self) -> Seq<char> {
        self.name@
    }
}

/// One installed unit of software, as a backend reports it.
///
/// The `id` is unique among the packages of the backend that reported it, and
/// only there: two backends may use the same `id` for different software.
/// The format of `version` is the backend's own. What a backend knows beyond
/// these fields goes into `extra`.
#[derive(Clone, Debug)]
pub struct Package {
    pub id: String,
    pub icon: IconName,
    pub name: String,
    pub version: String,
    pub extra: HashMap<String, String>,
}

/// What a [`Package`] holds, as mathematical values.
pub struct PackageView {
    pub id: Seq<char>,
    pub icon: Seq<char>,
    pub name: Seq<char>,
    pub version: Seq<char>,
    pub extra: Map<Seq<char>, Seq<char>>,
}

impl View for Package {
    type V = PackageView;

    open spec fn view(&self) -> PackageView {
        PackageView {
            id: self.id@,
            icon: self.icon@,
            name: self.name@,
            version: self.version@,
            extra: self.extra.deep_view(),
        }
    }
}

} // verus!
