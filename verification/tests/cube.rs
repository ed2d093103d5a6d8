use reworkspace::cube::{naming, permute, pivot_order, Cube, Naming};
use reworkspace::improv::Cat;

fn cats() -> Vec<Cat> {
    let cat = |name: &str, items: &[&str], col: bool| Cat { name: name.into(), items: items.iter().map(|s| s.to_string()).collect(), col };
    vec![
        cat("Products", &["Widgets", "Gadgets"], false),
        cat("Items", &["Units", "Price", "Revenue", "Costs", "Profit"], false),
        cat("Quarters", &["Q1", "Q2", "Q3", "Q4", "Average"], true),
    ]
}

fn cube() -> Cube<i32> {
    Cube { cats: cats(), cells: vec![(vec![1, 4, 3], 7), (vec![0, 1, 0], 12), (vec![0, 2, 1], 5)], sel: vec![1, 3, 2] }
}

#[test]
fn pivoting_puts_the_category_among_the_others_there() {
    let cs = cats();
    // Products to the columns, first there: before Quarters
    assert_eq!(pivot_order(&cs, 0, true, 0), vec![1, 0, 2]);
    // after the last column category when the position is past them
    assert_eq!(pivot_order(&cs, 0, true, 9), vec![1, 2, 0]);
    // Quarters to the rows, second there
    assert_eq!(pivot_order(&cs, 2, false, 1), vec![0, 2, 1]);
    assert_eq!(permute(&[1, 4, 3], &[1, 0, 2]), vec![4, 1, 3]);
}

#[test]
fn a_pivot_keeps_every_figure_at_its_items() {
    let mut c = cube();
    c.move_cat(0, true, 0);
    let names: Vec<&str> = c.cats.iter().map(|c| c.name.as_str()).collect();
    assert_eq!(names, ["Items", "Products", "Quarters"]);
    assert!(c.cats[1].col);
    assert!(!c.cats[0].col);
    assert_eq!(c.cells, vec![(vec![4, 1, 3], 7), (vec![1, 0, 0], 12), (vec![2, 0, 1], 5)]);
    assert_eq!(c.sel, vec![3, 1, 2]);
    // and back again
    c.move_cat(1, false, 0);
    let names: Vec<&str> = c.cats.iter().map(|c| c.name.as_str()).collect();
    assert_eq!(names, ["Products", "Items", "Quarters"]);
    assert_eq!(c.cells, cube().cells);
}

#[test]
fn removing_an_item_drops_its_figures_and_slides_the_rest() {
    let mut c = cube();
    assert!(c.remove_item(1, 1));
    assert_eq!(c.cats[1].items, ["Units", "Revenue", "Costs", "Profit"]);
    assert_eq!(c.cells, vec![(vec![1, 3, 3], 7), (vec![0, 1, 1], 5)]);
    assert_eq!(c.sel, vec![1, 3, 2]);
    assert!(c.remove_item(1, 3));
    assert_eq!(c.sel, vec![1, 2, 2]);
    // the last item of a category cannot go
    let mut one = Cube { cats: vec![Cat { name: "A".into(), items: vec!["x".into()], col: false }], cells: vec![(vec![0], 1)], sel: vec![0] };
    assert!(!one.remove_item(0, 0));
    assert_eq!(one.cells.len(), 1);
    assert!(!c.remove_item(0, 5));
}

#[test]
fn an_added_item_takes_the_first_free_name() {
    let mut c = cube();
    assert_eq!(c.add_item(0), Some(2));
    assert_eq!(c.cats[0].items, ["Widgets", "Gadgets", "Item 1"]);
    assert_eq!(c.add_item(0), Some(3));
    assert_eq!(c.cats[0].items[3], "Item 2");
    let mut full = Cube { cats: vec![Cat { name: "A".into(), items: (0..256).map(|i| format!("x{i}")).collect(), col: false }], cells: Vec::<(Vec<u8>, i32)>::new(), sel: vec![0] };
    assert_eq!(full.add_item(0), None);
    assert_eq!(full.cats[0].items.len(), 256);
}

#[test]
fn a_header_takes_a_new_name_unless_it_is_empty_or_taken() {
    let items: Vec<String> = ["Units", "Price", "Item 1"].iter().map(|s| s.to_string()).collect();
    assert!(matches!(naming(&items, 2, "  Margin "), Naming::Rename { ref name, spaced: false } if name == "Margin"));
    assert!(matches!(naming(&items, 2, "Gross Margin"), Naming::Rename { ref name, spaced: true } if name == "Gross Margin"));
    assert!(matches!(naming(&items, 2, "   "), Naming::Keep));
    assert!(matches!(naming(&items, 2, "Price"), Naming::Keep));
    // its own name again is no clash
    assert!(matches!(naming(&items, 1, "Price"), Naming::Rename { .. }));
    let mut c = cube();
    c.rename_item(1, 4, "Margin".to_string());
    assert_eq!(c.cats[1].items[4], "Margin");
    assert_eq!(c.cells, cube().cells);
}
