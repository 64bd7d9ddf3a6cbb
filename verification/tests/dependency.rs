use depcheck::dependency::Dependency;
use depcheck::pool::Section;
use depcheck::select_menu::SelectMenu;

#[test]
fn new_dependency_knows_only_its_declaration() {
    let dep = Dependency::new("react".to_string(), "^17.0.0".to_string());
    assert_eq!(dep.get_name(), "react");
    assert_eq!(dep.get_current_version(), "^17.0.0");
    assert_eq!(dep.get_latest_version(), "");
    assert_eq!(*dep.get_status(), None);
    assert!(!dep.is_outdated());
}

#[test]
fn setters_change_one_field() {
    let mut dep = Dependency::new("react".to_string(), "^17.0.0".to_string());
    dep.set_latest_version("18.2.0".to_string());
    assert_eq!(dep.get_latest_version(), "18.2.0");
    assert_eq!(*dep.get_status(), None);
    dep.set_status("Outdated".to_string());
    assert_eq!(*dep.get_status(), Some("Outdated".to_string()));
    assert_eq!(dep.get_name(), "react");
    assert_eq!(dep.get_current_version(), "^17.0.0");
    assert_eq!(dep.get_latest_version(), "18.2.0");
    assert!(dep.is_outdated());
}

#[test]
fn compare_names_the_status() {
    let mut dep = Dependency::new("react".to_string(), "17.0.0".to_string());
    assert_eq!(dep.compare(&"18.2.0".to_string()), "Outdated");
    assert_eq!(dep.compare(&"17.0.0".to_string()), "Up to date");
    assert_eq!(dep.compare(&"16.0.0".to_string()), "Newer than latest");
    assert_eq!(dep.compare(&"latest".to_string()), "Unknown");
    assert_eq!(dep, Dependency::new("react".to_string(), "17.0.0".to_string()));
}

#[test]
fn compare_of_an_unreadable_declaration_is_unknown() {
    let mut dep = Dependency::new("react".to_string(), "workspace".to_string());
    assert_eq!(dep.compare(&"18.2.0".to_string()), "Unknown");
}

#[test]
fn resolve_records_latest_and_status() {
    let mut dep = Dependency::new("react".to_string(), "^17.0.0".to_string());
    dep.resolve("18.2.0".to_string());
    assert_eq!(dep.get_latest_version(), "18.2.0");
    assert_eq!(*dep.get_status(), Some("Outdated".to_string()));
    assert!(dep.is_outdated());
    let mut fresh = Dependency::new("left-pad".to_string(), "1.0.0".to_string());
    fresh.resolve("1.0.0".to_string());
    assert_eq!(*fresh.get_status(), Some("Up to date".to_string()));
    assert!(!fresh.is_outdated());
}

#[test]
fn request_carries_name_constraint_and_section() {
    let dep = Dependency::new("jest".to_string(), "^27.0.0".to_string());
    let r = dep.request(Section::DevDependencies);
    assert_eq!(r.name, "jest");
    assert_eq!(r.declared_constraint, "^27.0.0");
    assert_eq!(r.section, Section::DevDependencies);
}

#[test]
fn menu_chooses_every_option_to_begin_with() {
    let options = ["a(1 -> 2)", "b(1 -> 3)", "c(2 -> 4)"];
    let menu = SelectMenu::new(&options, "Select dependencies to update");
    assert_eq!(menu.defaults(), &vec![true, true, true]);
    assert_eq!(menu.options(), &options);
    assert_eq!(menu.prompt(), "Select dependencies to update");
}

#[test]
fn menu_without_options() {
    let options: [&str; 0] = [];
    let menu = SelectMenu::new(&options, "nothing");
    assert!(menu.defaults().is_empty());
    assert_eq!(menu.picked(&Vec::new()), Some(Vec::new()));
    assert_eq!(menu.picked(&vec![0]), None);
}

#[test]
fn picked_maps_places_to_options() {
    let options = ["a(1 -> 2)", "b(1 -> 3)", "c(2 -> 4)"];
    let menu = SelectMenu::new(&options, "pick");
    assert_eq!(menu.picked(&vec![2, 0]), Some(vec!["c(2 -> 4)", "a(1 -> 2)"]));
    assert_eq!(menu.picked(&vec![1, 1]), Some(vec!["b(1 -> 3)", "b(1 -> 3)"]));
    assert_eq!(menu.picked(&vec![0, 3]), None);
}
