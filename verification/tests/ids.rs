use waypoint::ids::IdAllocator;

#[test]
fn ids_start_at_one_and_come_back() {
    let mut ids: IdAllocator<&str> = IdAllocator::new();
    assert!(ids.can_allocate());
    assert_eq!(ids.allocate("display"), 1);
    assert_eq!(ids.allocate("registry"), 2);
    assert_eq!(ids.allocate("callback"), 3);
    assert_eq!(*ids.data_for(2), "registry");
    ids.release(2);
    ids.release(1);
    assert_eq!(ids.allocate("again"), 1);
    assert_eq!(*ids.data_for(1), "again");
    assert_eq!(ids.allocate("and again"), 2);
    assert_eq!(ids.allocate("new"), 4);
    assert_eq!(*ids.data_for(3), "callback");
    assert_eq!(*ids.data_for(4), "new");
}

#[derive(Clone, Copy, Debug, PartialEq)]
struct Surface(u64);

impl waypoint::ids::Object<&'static str> for Surface {
    const INTERFACE: &'static str = "surface";

    fn spec_id(self) -> u64 {
        self.0
    }

    fn new(id: u64) -> Surface {
        Surface(id)
    }

    fn id(self) -> u64 {
        self.0
    }
}

fn name_of<O: waypoint::ids::Object<&'static str>>(_object: O) -> &'static str {
    O::INTERFACE
}

#[test]
fn typed_handles() {
    use_handles();
}

fn use_handles() {
    let surface = <Surface as waypoint::ids::Object<&'static str>>::new(7);
    assert_eq!(waypoint::ids::Object::id(surface), 7);
    assert!(!waypoint::ids::Object::is_null(surface));
    assert!(waypoint::ids::Object::is_null(Surface(0)));
    assert_eq!(name_of(surface), "surface");
    let any = <waypoint::ids::AnyObject as waypoint::ids::Object<()>>::new(9);
    assert_eq!(any, waypoint::ids::AnyObject(9));
    assert_eq!(waypoint::ids::Object::id(any), 9);
    assert!(waypoint::ids::Object::is_null(waypoint::ids::AnyObject::default()));
}
