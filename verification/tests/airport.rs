use logbook::airport::{find_containing, Airport, BoundingBox};
use logbook::geo::LatLon;

fn airport(id: i64, ident: &str, bounds: Option<BoundingBox>) -> Airport {
    Airport { id, ident: ident.to_string(), position: LatLon::new(0, 0), bounds }
}

fn area(left_lonx: i64, right_lonx: i64, bottom_laty: i64, top_laty: i64) -> Option<BoundingBox> {
    Some(BoundingBox { left_lonx, right_lonx, bottom_laty, top_laty })
}

fn cyprus() -> Vec<Airport> {
    vec![
        airport(1, "LCPH", area(324_700_000, 325_000_000, 347_100_000, 347_250_000)),
        airport(2, "LCLK", area(335_900_000, 336_500_000, 348_650_000, 348_850_000)),
        airport(3, "LCRA", None),
    ]
}

#[test]
fn a_box_holds_its_edges() {
    let bounds = area(-10, 10, -5, 5).unwrap();
    assert!(bounds.contains(LatLon::new(0, 0)));
    assert!(bounds.contains(LatLon::new(5, 10)));
    assert!(bounds.contains(LatLon::new(-5, -10)));
    assert!(bounds.contains(LatLon::new(5, -10)));
    assert!(!bounds.contains(LatLon::new(6, 0)));
    assert!(!bounds.contains(LatLon::new(-6, 0)));
    assert!(!bounds.contains(LatLon::new(0, 11)));
    assert!(!bounds.contains(LatLon::new(0, -11)));
    assert!(!bounds.contains(LatLon::new(10, 5)));
}

#[test]
fn the_airport_at_a_position_is_found() {
    let airports = cyprus();
    let found = find_containing(&airports, LatLon::new(347_177_780, 324_855_560)).unwrap();
    assert_eq!(found.ident, "LCPH");
    assert_eq!(found.id, 1);
    let found = find_containing(&airports, LatLon::new(348_750_000, 336_247_220)).unwrap();
    assert_eq!(found.ident, "LCLK");
    assert_eq!(found.id, 2);
}

#[test]
fn away_from_every_airport_nothing_is_found() {
    let airports = cyprus();
    assert!(find_containing(&airports, LatLon::new(0, 0)).is_none());
    assert!(find_containing(&airports, LatLon::new(347_177_780, 336_247_220)).is_none());
    assert!(find_containing(&Vec::new(), LatLon::new(347_177_780, 324_855_560)).is_none());
}

#[test]
fn an_airport_without_a_box_is_never_found() {
    let airports = vec![airport(3, "LCRA", None)];
    assert!(find_containing(&airports, LatLon::new(0, 0)).is_none());
    assert!(!airports[0].covers(LatLon::new(0, 0)));
}

#[test]
fn of_airports_that_share_ground_the_first_is_found() {
    let airports = vec![
        airport(1, "AAAA", area(0, 10, 0, 10)),
        airport(2, "BBBB", area(5, 15, 5, 15)),
    ];
    assert_eq!(find_containing(&airports, LatLon::new(7, 7)).unwrap().ident, "AAAA");
    assert_eq!(find_containing(&airports, LatLon::new(12, 12)).unwrap().ident, "BBBB");
    let turned = vec![
        airport(2, "BBBB", area(5, 15, 5, 15)),
        airport(1, "AAAA", area(0, 10, 0, 10)),
    ];
    assert_eq!(find_containing(&turned, LatLon::new(7, 7)).unwrap().ident, "BBBB");
}
