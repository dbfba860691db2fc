use bevy::platform::collections::HashMap;
use bevy_dialogue::template::replace_templates;

fn vars(pairs: &[(&str, &str)]) -> HashMap<String, String> {
    let mut m = HashMap::new();
    for (k, v) in pairs {
        m.insert(k.to_string(), v.to_string());
    }
    m
}

#[test]
fn known_variable_is_replaced() {
    let v = vars(&[("hero_name", "Sam")]);
    assert_eq!(replace_templates("Hello {{hero_name}}!", &v), "Hello Sam!");
}

#[test]
fn unknown_variable_is_kept() {
    let v = vars(&[("hero_name", "Sam")]);
    assert_eq!(replace_templates("Hi {{villain}}, I am {{hero_name}}", &v), "Hi {{villain}}, I am Sam");
}

#[test]
fn unclosed_opening_keeps_the_rest() {
    let v = vars(&[("a", "X"), ("b", "Y")]);
    assert_eq!(replace_templates("{{a}} and {{b and {{a}}", &v), "X and {{b and {{a}}");
}

#[test]
fn no_variables_gives_text_back() {
    let v = vars(&[]);
    let text = "{{a}} x {{b}} {{ {{c";
    assert_eq!(replace_templates(text, &v), text);
}

#[test]
fn plain_text_is_unchanged() {
    let v = vars(&[("a", "X")]);
    assert_eq!(replace_templates("no braces { here } at all", &v), "no braces { here } at all");
    assert_eq!(replace_templates("", &v), "");
}

#[test]
fn several_variables_and_non_ascii() {
    let v = vars(&[("name", "Ánh"), ("place", "Hà Nội")]);
    assert_eq!(replace_templates("Chào {{name}} ở {{place}}{{name}}", &v), "Chào Ánh ở Hà NộiÁnh");
}

#[test]
fn value_is_not_expanded_again() {
    let v = vars(&[("a", "{{b}}"), ("b", "B")]);
    assert_eq!(replace_templates("[{{a}}]", &v), "[{{b}}]");
}

#[test]
fn nested_opening_takes_the_first_closing() {
    let v = vars(&[("{x", "K")]);
    assert_eq!(replace_templates("{{{x}}}", &v), "K}");
    let none = vars(&[]);
    assert_eq!(replace_templates("{{{x}}}", &none), "{{{x}}}");
}

#[test]
fn empty_name() {
    let v = vars(&[("", "E")]);
    assert_eq!(replace_templates("a{{}}b", &v), "aEb");
}
