//! The card shown for one route.
use vstd::prelude::*;

use crate::icons::IconIndex;
use crate::model::Route;
use crate::web::pages::{card_icon, icon_text};

verus! {

/// The data a route card renders: the route and its icon markup (the
/// vendored SVG, else the icon annotation as text, else empty).
pub struct CardTemplate<'a> {
    pub route: &'a Route,
    pub icon_url: String,
}

impl<'a> CardTemplate<'a> {
    /// Resolves the route's icon and returns the card data.
    pub fn for_route(route: &'a Route, icons: &IconIndex) -> (c: CardTemplate<'a>)
        ensures
            c.route == route,
            c.icon_url@ == icon_text(icons@, route@),
    {
        let icon_url = card_icon(icons, route);
        CardTemplate { route, icon_url }
    }
}

} // verus!
