use picloud_http::iri::{route_iri, ContentType, IriRoute};

#[test]
fn route_cluster_root() {
    assert_eq!(route_iri("/"), IriRoute::ClusterRoot);
}

#[test]
fn route_node() {
    assert_eq!(route_iri("/nodes/pi-01"), IriRoute::Node { name: "pi-01".to_string() });
}

#[test]
fn route_product() {
    assert_eq!(route_iri("/products/photo-app"), IriRoute::Product { product: "photo-app".to_string() });
}

#[test]
fn route_product_graph() {
    assert_eq!(
        route_iri("/products/photo-app/graph"),
        IriRoute::ProductGraph { product: "photo-app".to_string() }
    );
}

#[test]
fn route_feature_flag() {
    assert_eq!(
        route_iri("/products/photo-app/flags/dark-mode"),
        IriRoute::FeatureFlag { product: "photo-app".to_string(), name: "dark-mode".to_string() }
    );
}

#[test]
fn route_aggregate_stream() {
    assert_eq!(
        route_iri("/products/photo-app/event-store/photos/Album/album-1/events"),
        IriRoute::AggregateStream {
            product: "photo-app".to_string(),
            store: "photos".to_string(),
            agg_type: "Album".to_string(),
            agg_id: "album-1".to_string(),
        }
    );
}

#[test]
fn route_event_schema() {
    assert_eq!(
        route_iri("/schemas/events/ResourceReady/v1"),
        IriRoute::EventSchema { event_type: "ResourceReady".to_string(), version: "v1".to_string() }
    );
}

#[test]
fn route_generic_resource() {
    assert_eq!(
        route_iri("/products/photo-app/containers/api-server"),
        IriRoute::Resource {
            product: "photo-app".to_string(),
            resource_type: "containers".to_string(),
            name: "api-server".to_string()
        }
    );
}

#[test]
fn route_not_found() {
    assert_eq!(route_iri("/random/path/that/doesnt/match/anything"), IriRoute::NotFound);
}

#[test]
fn content_type_from_accept_turtle() {
    assert_eq!(ContentType::from_accept("text/turtle"), ContentType::Turtle);
}

#[test]
fn content_type_from_accept_json_ld() {
    assert_eq!(ContentType::from_accept("application/ld+json"), ContentType::JsonLd);
}

#[test]
fn content_type_from_accept_json() {
    assert_eq!(ContentType::from_accept("application/json"), ContentType::Json);
}

#[test]
fn content_type_from_accept_html() {
    assert_eq!(ContentType::from_accept("text/html"), ContentType::Html);
}

#[test]
fn content_type_default_is_json() {
    assert_eq!(ContentType::from_accept("*/*"), ContentType::Json);
}

#[test]
fn mime_type_strings() {
    assert!(ContentType::Turtle.mime_type().contains("text/turtle"));
    assert!(ContentType::Json.mime_type().contains("application/json"));
}

#[test]
fn accept_matching_ignores_case() {
    assert_eq!(ContentType::from_accept("TEXT/TURTLE"), ContentType::Turtle);
}

#[test]
fn product_sub_routes() {
    assert_eq!(
        route_iri("/products/photo-app/config/db-url"),
        IriRoute::ConfigEntry { product: "photo-app".to_string(), key: "db-url".to_string() }
    );
    assert_eq!(route_iri("/products/photo-app/flags"), IriRoute::ProductFlags { product: "photo-app".to_string() });
    assert_eq!(route_iri("/products/photo-app/events"), IriRoute::ProductEvents { product: "photo-app".to_string() });
}

#[test]
fn paths_with_the_same_segments_route_alike() {
    assert_eq!(route_iri("//products///photo-app//"), route_iri("/products/photo-app"));
    assert_eq!(route_iri(""), IriRoute::ClusterRoot);
    assert_eq!(route_iri("///"), IriRoute::ClusterRoot);
}

#[test]
fn mime_type_negotiates_back_to_its_type() {
    for c in [ContentType::Turtle, ContentType::JsonLd, ContentType::Json, ContentType::Html] {
        assert_eq!(ContentType::from_accept(c.mime_type()), c);
        assert!(c.mime_type().ends_with("; charset=utf-8"));
    }
}
