use one_thousand_deaths::oid::Oid;
use one_thousand_deaths::point::Point;
use one_thousand_deaths::shared::{Species, Terrain};
use one_thousand_deaths::store::Store;
use one_thousand_deaths::type_id::StoreValue;

fn home() -> Oid {
    Oid::without_tag(10)
}

fn work() -> Oid {
    Oid::without_tag(11)
}

#[test]
fn test_find() {
    let mut store = Store::new();

    let value = store.find::<Point>(home());
    assert!(value.is_none());

    store.create(home(), Point::new(3, -4));
    let value = store.find::<Point>(home());
    assert_eq!(value.unwrap(), Point::new(3, -4));

    let value = store.find::<Point>(work());
    assert!(value.is_none());

    store.remove::<Point>(home());
    let value = store.find::<Point>(home());
    assert!(value.is_none());
}

#[test]
fn values_of_different_types_share_a_key() {
    let mut store = Store::new();
    store.create(home(), Terrain::ShallowWater);
    store.create(home(), Species::Bhederin);
    store.create(home(), Point::new(i32::MIN, i32::MAX));
    assert_eq!(store.find::<Terrain>(home()), Some(Terrain::ShallowWater));
    assert_eq!(store.find::<Species>(home()), Some(Species::Bhederin));
    assert_eq!(store.find::<Point>(home()), Some(Point::new(i32::MIN, i32::MAX)));
    assert_eq!(store.find::<Terrain>(work()), None);
}

#[test]
fn replace_reports_an_old_value() {
    let mut store = Store::new();
    assert!(!store.replace(work(), Terrain::Dirt));
    assert!(store.replace(work(), Terrain::DeepWater));
    assert_eq!(store.find::<Terrain>(work()), Some(Terrain::DeepWater));
    // Removing a missing value is no error.
    store.remove::<Species>(work());
    assert_eq!(store.find::<Terrain>(work()), Some(Terrain::DeepWater));
}

#[test]
fn transfer_moves_a_value() {
    let mut store = Store::new();
    store.create(home(), Species::Ay);
    store.transfer::<Species>(home(), work());
    assert_eq!(store.find::<Species>(home()), None);
    assert_eq!(store.find::<Species>(work()), Some(Species::Ay));
}

#[test]
fn stored_bytes_are_zig_zag_varints() {
    assert_eq!(Point::new(-1, 300).to_bytes(), vec![1, 216, 4]);
    assert_eq!(Point::from_bytes(&[1, 216, 4]), Some(Point::new(-1, 300)));
    assert_eq!(Point::new(0, -2).to_bytes(), vec![0, 3]);
    assert_eq!(Terrain::RockWall.to_bytes(), vec![2]);
    assert_eq!(Terrain::from_bytes(&[3]), Some(Terrain::ShallowWater));
}
