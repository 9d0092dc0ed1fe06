use vstd::prelude::*;

verus! {

/// Base URL of the wiki's real-time prices API.
pub const WIKI_ENDPOINT_URL: &'static str = "https://prices.runescape.wiki/api/v1/osrs/";

/// The routes of the real-time prices API.
#[derive(Clone, Copy, Debug, PartialEq, Eq, Structural)]
pub enum Route {
    Latest,
    Mapping,
    FiveMin,
    OneHour,
    TimeSeries,
}

/// The path segment that selects `route` under the API's base URL.
pub open spec fn endpoint_spec(route: Route) -> Seq<char> {
    match route {
        Route::Latest => "latest"@,
        Route::Mapping => "mapping"@,
        Route::FiveMin => "5m"@,
        Route::OneHour => "1h"@,
        Route::TimeSeries => "timeseries"@,
    }
}

/// The full URL that is requested for `route`.
pub open spec fn resource_url_spec(route: Route) -> Seq<char> {
    WIKI_ENDPOINT_URL@ + endpoint_spec(route)
}

/// Different routes are requested at different URLs.
pub proof fn lemma_routes_have_distinct_urls(a: Route, b: Route)
    requires
        a != b,
    ensures
        resource_url_spec(a) != resource_url_spec(b),
{
    reveal_strlit("latest");
    reveal_strlit("mapping");
    reveal_strlit("5m");
    reveal_strlit("1h");
    reveal_strlit("timeseries");
    let base = WIKI_ENDPOINT_URL@;
    assert(endpoint_spec(a) != endpoint_spec(b)) by {
        let x = endpoint_spec(a);
        let y = endpoint_spec(b);
        if x.len() == y.len() {
            assert(x[0] != y[0] || x[1] != y[1]);
        }
    }
    if resource_url_spec(a) == resource_url_spec(b) {
        assert(endpoint_spec(a) =~= resource_url_spec(a).subrange(base.len() as int, resource_url_spec(a).len() as int));
        assert(endpoint_spec(b) =~= resource_url_spec(b).subrange(base.len() as int, resource_url_spec(b).len() as int));
    }
}

impl Route {
    /// The path segment of this route.
    pub fn endpoint(&self) -> (res: String)
        ensures
            res@ == endpoint_spec(*self),
    {
        match self {
            Route::Latest => "latest".to_string(),
            Route::Mapping => "mapping".to_string(),
            Route::FiveMin => "5m".to_string(),
            Route::OneHour => "1h".to_string(),
            Route::TimeSeries => "timeseries".to_string(),
        }
    }

    /// The URL that a request for this route is sent to: the base URL
    /// followed by the route's endpoint.
    pub fn resource_url(&self) -> (res: String)
        ensures
            res@ == resource_url_spec(*self),
    {
        let mut resource = WIKI_ENDPOINT_URL.to_string();
        let endpoint = self.endpoint();
        resource.append(endpoint.as_str());
        resource
    }
}

} // verus!
