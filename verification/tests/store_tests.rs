use recipes::store::create;
use recipes::store::publish;
use recipes::store::public_subset;
use recipes::types::Recipe;

fn recipe_eq(a: &Recipe, b: &Recipe) -> bool {
    a.id == b.id && a.name == b.name && a.ingredients == b.ingredients
        && a.instructions == b.instructions && a.public == b.public
}

fn store_eq(a: &Vec<Recipe>, b: &Vec<Recipe>) -> bool {
    a.len() == b.len() && a.iter().zip(b.iter()).all(|(x, y)| recipe_eq(x, y))
}

#[test]
fn create_on_empty_store_assigns_zero() {
    let mut store: Vec<Recipe> = Vec::new();
    let r = create(
        &mut store,
        String::from("Soup"),
        String::from("water|salt"),
        String::from("boil"),
    );
    assert_eq!(r.id, 0);
    assert_eq!(r.name, "Soup");
    assert_eq!(r.ingredients, "water|salt");
    assert_eq!(r.instructions, "boil");
    assert!(!r.public);
    assert_eq!(store.len(), 1);
    assert!(recipe_eq(&store[0], &r));
}

#[test]
fn create_ids_strictly_increase() {
    let mut store: Vec<Recipe> = Vec::new();
    let a = create(&mut store, String::from("a"), String::from("x"), String::from("y"));
    let b = create(&mut store, String::from("b"), String::from("x"), String::from("y"));
    let c = create(&mut store, String::from("c"), String::from("x"), String::from("y"));
    assert_eq!(a.id, 0);
    assert_eq!(b.id, 1);
    assert_eq!(c.id, 2);
}

#[test]
fn create_uses_max_plus_one_after_gap() {
    let mut store: Vec<Recipe> = vec![
        Recipe {
            id: 7,
            name: String::from("n"),
            ingredients: String::from("i"),
            instructions: String::from("s"),
            public: false,
        },
        Recipe {
            id: 2,
            name: String::from("m"),
            ingredients: String::from("j"),
            instructions: String::from("t"),
            public: true,
        },
    ];
    let r = create(&mut store, String::from("q"), String::from("k"), String::from("u"));
    assert_eq!(r.id, 8);
}

#[test]
fn publish_sets_public_on_matching_id() {
    let mut store: Vec<Recipe> = Vec::new();
    create(&mut store, String::from("a"), String::from("x"), String::from("y"));
    create(&mut store, String::from("b"), String::from("x"), String::from("y"));
    publish(&mut store, 1);
    assert!(!store[0].public);
    assert!(store[1].public);
}

#[test]
fn publish_twice_equals_publish_once() {
    let mut once: Vec<Recipe> = Vec::new();
    create(&mut once, String::from("a"), String::from("x"), String::from("y"));
    create(&mut once, String::from("b"), String::from("x"), String::from("y"));
    let mut twice: Vec<Recipe> = Vec::new();
    create(&mut twice, String::from("a"), String::from("x"), String::from("y"));
    create(&mut twice, String::from("b"), String::from("x"), String::from("y"));
    publish(&mut once, 0);
    publish(&mut twice, 0);
    publish(&mut twice, 0);
    assert!(store_eq(&once, &twice));
}

#[test]
fn publish_missing_id_changes_nothing() {
    let mut store: Vec<Recipe> = Vec::new();
    create(&mut store, String::from("a"), String::from("x"), String::from("y"));
    let mut same: Vec<Recipe> = Vec::new();
    create(&mut same, String::from("a"), String::from("x"), String::from("y"));
    publish(&mut store, 42);
    assert!(store_eq(&store, &same));
}

#[test]
fn published_entry_never_reverts() {
    let mut store: Vec<Recipe> = Vec::new();
    create(&mut store, String::from("a"), String::from("x"), String::from("y"));
    create(&mut store, String::from("b"), String::from("x"), String::from("y"));
    publish(&mut store, 0);
    publish(&mut store, 1);
    publish(&mut store, 7);
    create(&mut store, String::from("c"), String::from("x"), String::from("y"));
    assert!(store[0].public);
    assert!(store[1].public);
    assert!(!store[2].public);
}

#[test]
fn public_subset_holds_only_public_entries_in_order() {
    let mut store: Vec<Recipe> = Vec::new();
    create(&mut store, String::from("a"), String::from("x"), String::from("y"));
    create(&mut store, String::from("b"), String::from("x"), String::from("y"));
    create(&mut store, String::from("c"), String::from("x"), String::from("y"));
    publish(&mut store, 2);
    publish(&mut store, 0);
    let subset = public_subset(&store);
    assert_eq!(subset.len(), 2);
    assert_eq!(subset[0].id, 0);
    assert_eq!(subset[1].id, 2);
    assert!(subset.iter().all(|r| r.public));
}

#[test]
fn public_subset_of_unpublished_store_is_empty() {
    let mut store: Vec<Recipe> = Vec::new();
    create(&mut store, String::from("a"), String::from("x"), String::from("y"));
    assert_eq!(public_subset(&store).len(), 0);
}
