use element::providers::units::{candidate_splits, dimension, lookup_unit, UnitsProvider};

#[test]
fn units_trigger_needs_digit_and_separator() {
    assert!(UnitsProvider.should_run("5 km in miles"));
    assert!(UnitsProvider.should_run("2 liters to gallons"));
    assert!(!UnitsProvider.should_run("km in miles"));
    assert!(!UnitsProvider.should_run("5 km"));
}

#[test]
fn unit_names_and_plurals() {
    let km = lookup_unit(" KM ").unwrap();
    assert_eq!(dimension(km), "length");
    let miles = lookup_unit("miles").unwrap();
    assert_eq!(miles, lookup_unit("mile").unwrap());
    assert_eq!(dimension(lookup_unit("c").unwrap()), "temp");
    assert_eq!(dimension(lookup_unit("fl oz").unwrap()), "volume");
    assert!(lookup_unit("apples").is_none());
}

#[test]
fn splits_try_every_separator_in_order() {
    let c = candidate_splits("5.5 in to cm");
    // " in " at 3 has no unit before it; " to " at 6 reads "in" → "cm"
    assert_eq!(c.len(), 1);
    assert_eq!(c[0], ("5.5".to_string(), "in".to_string(), "cm".to_string()));
    let c = candidate_splits("5 km in miles");
    assert_eq!(c, vec![("5".to_string(), "km".to_string(), "miles".to_string())]);
    assert!(candidate_splits("hello world").is_empty());
    assert!(candidate_splits("5 in 3").is_empty());
}

#[test]
fn to_before_in_is_tried_first() {
    // " to " at 3 comes before " in " at 13: readings follow position order
    let c = candidate_splits("3 m to feet x in yards");
    assert_eq!(c.len(), 2);
    assert_eq!(c[0], ("3".to_string(), "m".to_string(), "feet x in yards".to_string()));
    assert_eq!(c[1], ("3".to_string(), "m to feet x".to_string(), "yards".to_string()));
}
