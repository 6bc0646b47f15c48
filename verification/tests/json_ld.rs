use coventry_scraper::dom::Document;
use coventry_scraper::json::{parse_json, Json};
use coventry_scraper::layer1::{apply_json_ld, layer1_json_ld, parse_json_ld_course};
use coventry_scraper::schema::{CourseData, NA};

const URL: &str = "https://www.coventry.ac.uk/x";

fn read(json: &str) -> CourseData {
    let mut data = CourseData::new_empty(URL);
    apply_json_ld(&parse_json(json).unwrap(), &mut data);
    data
}

#[test]
fn values_are_told_apart() {
    let value = parse_json("{\"a\": \"x\", \"b\": [1, \"y\"], \"a\": \"z\", \"n\": null}").unwrap();
    assert_eq!(value.get_text("a").unwrap(), "z");
    assert!(matches!(value.get("n"), Some(Json::Other)));
    assert!(value.get("c").is_none());
    assert!(value.get_text("b").is_none());
    match value.get("b") {
        Some(Json::List(items)) => {
            assert_eq!(items.len(), 2);
            assert!(items[0].as_text().is_none());
            assert_eq!(items[1].as_text().unwrap(), "y");
        }
        _ => panic!("no list"),
    }
    assert!(parse_json("{").is_none());
    assert!(parse_json("\"t\"").unwrap().get("a").is_none());
}

#[test]
fn a_course_object_fills_five_fields() {
    let data = read(
        "{\"@type\": \"Course\", \"name\": \" Law\\n LLB\", \"educationalLevel\": \"Undergraduate \",\
         \"timeToComplete\": \"P3Y\", \"offers\": [{\"price\": \"9250\", \"priceCurrency\": \"EUR\"}, {\"price\": \"1\"}],\
         \"location\": {\"name\": \"Coventry  Campus\"}}",
    );
    assert_eq!(data.program_course_name, "Law LLB");
    assert_eq!(data.study_level, "Undergraduate");
    assert_eq!(data.course_duration, "3 years");
    assert_eq!(data.yearly_tuition_fee, "EUR 9250");
    assert_eq!(data.campus, "Coventry Campus");
    assert_eq!(data.fill_rate(), 9);
}

#[test]
fn other_members_take_their_place() {
    let data = read(
        "{\"@type\": \"EducationalOccupationalProgram\", \"educationalCredentialAwarded\": \"MSc\",\
         \"offers\": {\"priceSpecification\": \"18900\"}, \"locationCreated\": \"London\"}",
    );
    assert_eq!(data.study_level, "MSc");
    assert_eq!(data.yearly_tuition_fee, "GBP 18900");
    assert_eq!(data.campus, "London");
    assert_eq!(data.program_course_name, NA);
}

#[test]
fn members_that_are_no_texts_are_passed_over() {
    let data = read(
        "{\"@type\": \"Course\", \"name\": 5, \"educationalLevel\": null, \"educationalCredentialAwarded\": \"MSc\",\
         \"offers\": {\"price\": 9250}, \"location\": {\"id\": 1}}",
    );
    assert_eq!(data.program_course_name, NA);
    assert_eq!(data.study_level, NA);
    assert_eq!(data.yearly_tuition_fee, NA);
    assert_eq!(data.campus, NA);
    assert_eq!(read("{\"@type\": \"Course\", \"offers\": []}").yearly_tuition_fee, NA);
}

#[test]
fn only_courses_are_read() {
    assert_eq!(read("{\"@type\": \"Person\", \"name\": \"A\"}").program_course_name, NA);
    assert_eq!(read("{\"name\": \"A\"}").program_course_name, NA);
    assert_eq!(read("[{\"@type\": \"Course\", \"name\": \"A\"}]").program_course_name, NA);
    assert_eq!(read("{\"@type\": \"CourseInstance\", \"name\": \"A\"}").program_course_name, "A");
}

#[test]
fn a_graph_holds_several_objects() {
    let data = read(
        "{\"@type\": \"Course\", \"name\": \"outer\", \"@graph\": [{\"@type\": \"Person\", \"name\": \"p\"},\
         {\"@type\": \"Course\", \"timeToComplete\": \"P2Y\"}, {\"@type\": \"Course\", \"name\": \"b\", \"timeToComplete\": \"P9Y\"}]}",
    );
    assert_eq!(data.program_course_name, "b");
    assert_eq!(data.course_duration, "2 years");
    assert_eq!(read("{\"@type\": \"Course\", \"name\": \"a\", \"@graph\": 1}").program_course_name, NA);
}

#[test]
fn a_course_object_given_by_its_members() {
    let text = |t: &str| Json::Text(t.to_string());
    let obj = Json::Object(vec![
        ("name".to_string(), text("Law LLB")),
        ("location".to_string(), text(" London ")),
        ("offers".to_string(), Json::List(vec![])),
    ]);
    let mut data = CourseData::new_empty(URL);
    data.campus = "Coventry".to_string();
    parse_json_ld_course(&obj, &mut data);
    assert_eq!(data.program_course_name, "Law LLB");
    assert_eq!(data.campus, "Coventry");
    assert_eq!(data.yearly_tuition_fee, NA);
}

#[test]
fn scripts_of_a_page() {
    let doc = Document::parse(
        "<script type='application/ld+json'>not json</script>\
         <script type='application/ld+json'>{\"@type\": \"Course\", \"name\": \"one\"}</script>\
         <script type='application/ld+json'>{\"@type\": \"Course\", \"name\": \"two\", \"location\": \"London\"}</script>\
         <script>{\"@type\": \"Course\", \"timeToComplete\": \"P1Y\"}</script>",
    );
    let mut data = CourseData::new_empty(URL);
    layer1_json_ld(&doc, &mut data);
    assert_eq!(data.program_course_name, "one");
    assert_eq!(data.campus, "London");
    assert_eq!(data.course_duration, NA);
    let once = data.clone();
    layer1_json_ld(&doc, &mut data);
    assert_eq!(data.fields(), once.fields());
}
