use btcmap::element::Element;
use btcmap::element::ElementKind;
use btcmap::element::OverpassElement;
use btcmap::region::region_elements;
use btcmap::region::Boundary;
use btcmap::region::Geometry;
use btcmap::region::GeometryKind;
use geo::Contains;
use geo::Coord;
use geo::LineString;
use geo::MultiPolygon;
use geo::Polygon;
use geojson::GeoJson;

fn element(id: i64) -> Element {
    Element {
        data: OverpassElement {
            kind: ElementKind::Node,
            id,
            tags: vec![],
            uid: 0,
            user: String::new(),
            visible: true,
            payload: String::new(),
        },
        created_at: 0,
        updated_at: 0,
        deleted_at: None,
    }
}

fn answers(geo_json: &str, points: &[(f64, f64)]) -> Vec<Geometry> {
    let coords: Vec<Coord> = points.iter().map(|(lon, lat)| Coord { x: *lon, y: *lat }).collect();
    let geometry = match geo_json.parse::<GeoJson>().unwrap() {
        GeoJson::Geometry(geometry) => geometry,
        _ => panic!("no geometry"),
    };
    let shape = match &geometry.value {
        geojson::Value::Polygon(_) => {
            let shape: Polygon = (&geometry.value).try_into().unwrap();
            Geometry {
                kind: GeometryKind::Polygon,
                contains: coords.iter().map(|it| shape.contains(it)).collect(),
            }
        }
        geojson::Value::MultiPolygon(_) => {
            let shape: MultiPolygon = (&geometry.value).try_into().unwrap();
            Geometry {
                kind: GeometryKind::MultiPolygon,
                contains: coords.iter().map(|it| shape.contains(it)).collect(),
            }
        }
        geojson::Value::LineString(_) => {
            let shape: LineString = (&geometry.value).try_into().unwrap();
            Geometry {
                kind: GeometryKind::LineString,
                contains: coords.iter().map(|it| shape.contains(it)).collect(),
            }
        }
        _ => Geometry { kind: GeometryKind::Other, contains: vec![] },
    };
    vec![shape]
}

const SQUARE: &str =
    "{\"type\":\"Polygon\",\"coordinates\":[[[0.0,0.0],[10.0,0.0],[10.0,10.0],[0.0,10.0],[0.0,0.0]]]}";

fn member_ids(geo_json: &str, points: &[(f64, f64)]) -> Vec<i64> {
    let snapshot: Vec<Element> = (0..points.len()).map(|i| element(i as i64)).collect();
    let boundary = Boundary::Shapes(answers(geo_json, points));
    region_elements(&snapshot, &boundary).iter().map(|e| e.data.id).collect()
}

#[test]
fn point_inside_polygon_is_counted_and_point_outside_is_not() {
    let points = [(5.0, 5.0), (15.0, 5.0), (-0.001, 5.0), (9.999, 9.999), (5.0, 10.001)];
    assert_eq!(member_ids(SQUARE, &points), vec![0, 3]);
}

#[test]
fn point_on_the_edge_of_a_polygon_is_outside_every_time() {
    let points = [(0.0, 5.0), (10.0, 10.0), (5.0, 0.0)];
    let first = member_ids(SQUARE, &points);
    let second = member_ids(SQUARE, &points);
    assert_eq!(first, second);
    assert_eq!(first, Vec::<i64>::new());
}

#[test]
fn multi_polygon_holds_what_one_of_its_parts_holds() {
    let two_squares = "{\"type\":\"MultiPolygon\",\"coordinates\":[[[[0.0,0.0],[1.0,0.0],[1.0,1.0],[0.0,1.0],[0.0,0.0]]],[[[5.0,5.0],[6.0,5.0],[6.0,6.0],[5.0,6.0],[5.0,5.0]]]]}";
    let points = [(0.5, 0.5), (5.5, 5.5), (3.0, 3.0)];
    assert_eq!(member_ids(two_squares, &points), vec![0, 1]);
}

#[test]
fn line_holds_the_points_on_it() {
    let line = "{\"type\":\"LineString\",\"coordinates\":[[0.0,0.0],[10.0,10.0]]}";
    let points = [(5.0, 5.0), (5.0, 6.0)];
    assert_eq!(member_ids(line, &points), vec![0]);
}

#[test]
fn point_shape_matches_nothing() {
    let point = "{\"type\":\"Point\",\"coordinates\":[5.0,5.0]}";
    assert_eq!(member_ids(point, &[(5.0, 5.0)]), Vec::<i64>::new());
}
