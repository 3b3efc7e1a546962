use strict_yaml_rust::{ScanError, StrictYaml, StrictYamlLoader};

#[test]
fn test_api() {
    let s = "
# from yaml-cpp example
- name: Ogre
  position: [0, 5, 0]
  powers:
    - name: Club
      damage: 10
    - name: Fist
      damage: 8
- name: Dragon
  position: [1, 0, 10]
  powers:
    - name: Fire Breath
      damage: 25
    - name: Claws
      damage: 15
- name: Wizard
  position: [5, -3, 0]
  powers:
    - name: Acid Rain
      damage: 50
    - name: Staff
      damage: 3
";
    let docs = StrictYamlLoader::load_from_str(s).unwrap();
    let doc = &docs[0];

    assert_eq!(doc[0]["name"].as_str().unwrap(), "Ogre");
    assert!(!doc.is_badvalue());
}

fn try_fail(s: &str) -> Result<Vec<StrictYaml>, ScanError> {
    let t = StrictYamlLoader::load_from_str(s)?;
    Ok(t)
}

#[test]
fn test_fail() {
    let s = "
# syntax error
scalar
key: [1, 2]]
key1:a2
";
    assert!(StrictYamlLoader::load_from_str(s).is_err());
    assert!(try_fail(s).is_err());
}
