use engine::{Engine, FileId, Route, Tracer};

type Errors = Vec<String>;

type Plain<'a> = Engine<'a, &'a str, u32, u64, Errors>;

fn errors(messages: &[&str]) -> Errors {
    messages.iter().map(|message| message.to_string()).collect()
}

#[test]
fn a_new_tracer_holds_nothing() {
    let mut tracer: Tracer<Errors> = Tracer::new();
    assert!(tracer.delayed().is_empty());
    let mut tracer: Tracer<Errors> = Tracer::default();
    assert!(tracer.delayed().is_empty());
}

#[test]
fn a_tracer_gives_the_batches_back_in_order_and_once() {
    let mut tracer = Tracer::new();
    tracer.delay(errors(&["first"]));
    tracer.delay(errors(&[]));
    tracer.delay(errors(&["second", "third"]));
    assert_eq!(
        tracer.delayed(),
        vec![errors(&["first"]), errors(&[]), errors(&["second", "third"])]
    );
    assert!(tracer.delayed().is_empty());
    tracer.delay(errors(&["fourth"]));
    assert_eq!(tracer.delayed(), vec![errors(&["fourth"])]);
}

#[test]
fn delayed_passes_a_value_on_and_records_nothing() {
    let mut locator = 0u64;
    let mut tracer = Tracer::new();
    let mut engine: Plain = Engine {
        world: "world",
        introspector: 1,
        route: Route::root(),
        locator: &mut locator,
        tracer: &mut tracer,
    };
    let value: u32 = engine.delayed(|_| Ok(17));
    assert_eq!(value, 17);
    let text: String = engine.delayed(|_| Ok("kept".to_string()));
    assert_eq!(text, "kept");
    assert!(tracer.delayed().is_empty());
}

#[test]
fn delayed_records_a_failure_and_stands_in_the_default() {
    let mut locator = 0u64;
    let mut tracer = Tracer::new();
    let mut engine: Plain = Engine {
        world: "world",
        introspector: 1,
        route: Route::root(),
        locator: &mut locator,
        tracer: &mut tracer,
    };
    let value: u32 = engine.delayed(|_| Err(errors(&["unknown label"])));
    assert_eq!(value, 0);
    assert_eq!(tracer.delayed(), vec![errors(&["unknown label"])]);
}

#[test]
fn delayed_stands_in_the_default_of_each_type() {
    let mut locator = 0u64;
    let mut tracer = Tracer::new();
    let mut engine: Plain = Engine {
        world: "world",
        introspector: 1,
        route: Route::root(),
        locator: &mut locator,
        tracer: &mut tracer,
    };
    let text: String = engine.delayed(|_| Err(errors(&["a"])));
    assert_eq!(text, "");
    let list: Vec<u8> = engine.delayed(|_| Err(errors(&["b"])));
    assert!(list.is_empty());
    let choice: Option<u8> = engine.delayed(|_| Err(errors(&["c"])));
    assert_eq!(choice, None);
    let flag: bool = engine.delayed(|_| Err(errors(&["d"])));
    assert!(!flag);
    let pair: (u8, i64) = engine.delayed(|_| Err(errors(&["e"])));
    assert_eq!(pair, (0, 0));
    assert_eq!(
        tracer.delayed(),
        vec![errors(&["a"]), errors(&["b"]), errors(&["c"]), errors(&["d"]), errors(&["e"])]
    );
}

#[test]
fn delayed_records_one_batch_for_each_failure() {
    let mut locator = 0u64;
    let mut tracer = Tracer::new();
    tracer.delay(errors(&["earlier"]));
    let mut engine: Plain = Engine {
        world: "world",
        introspector: 1,
        route: Route::root(),
        locator: &mut locator,
        tracer: &mut tracer,
    };
    let first: u32 = engine.delayed(|_| Err(errors(&["one", "two"])));
    let second: u32 = engine.delayed(|_| Ok(5));
    let third: u32 = engine.delayed(|_| Err(errors(&[])));
    assert_eq!((first, second, third), (0, 5, 0));
    assert_eq!(
        tracer.delayed(),
        vec![errors(&["earlier"]), errors(&["one", "two"]), errors(&[])]
    );
}

#[test]
fn delayed_hands_the_engine_to_the_step() {
    let mut locator = 3u64;
    let mut tracer = Tracer::new();
    let mut engine: Plain = Engine {
        world: "world",
        introspector: 9,
        route: Route::root(),
        locator: &mut locator,
        tracer: &mut tracer,
    };
    let length: usize = engine.delayed(|engine| {
        *engine.locator += 1;
        engine.route.increase();
        Ok(engine.world.len() + engine.introspector as usize)
    });
    assert_eq!(length, 14);
    assert!(engine.route.within(0));
    let nested = Route::extend(engine.route.track());
    assert!(nested.within(1));
    assert_eq!(*engine.locator, 4);
    let failed: usize = engine.delayed(|engine| {
        *engine.locator += 1;
        Err(errors(&["late"]))
    });
    assert_eq!(failed, 0);
    assert_eq!(locator, 5);
    assert_eq!(tracer.delayed(), vec![errors(&["late"])]);
}

#[test]
fn what_a_step_delays_comes_before_its_own_failure() {
    let mut locator = 0u64;
    let mut tracer = Tracer::new();
    let mut engine: Plain = Engine {
        world: "world",
        introspector: 1,
        route: Route::root(),
        locator: &mut locator,
        tracer: &mut tracer,
    };
    let outer: u8 = engine.delayed(|engine| {
        let inner: u8 = engine.delayed(|_| Err(errors(&["inner"])));
        assert_eq!(inner, 0);
        let kept: u8 = engine.delayed(|_| Ok(2));
        assert_eq!(kept, 2);
        Err(errors(&["outer"]))
    });
    assert_eq!(outer, 0);
    assert_eq!(tracer.delayed(), vec![errors(&["inner"]), errors(&["outer"])]);
}

#[test]
fn settle_passes_a_value_on() {
    let mut locator = 0u64;
    let mut tracer = Tracer::new();
    let mut engine: Plain = Engine {
        world: "world",
        introspector: 1,
        route: Route::root(),
        locator: &mut locator,
        tracer: &mut tracer,
    };
    assert_eq!(engine.settle(Ok(21u32)), 21);
    assert_eq!(engine.settle(Ok(Some(4u8))), Some(4));
    assert!(tracer.delayed().is_empty());
}

#[test]
fn settle_delays_the_errors() {
    let mut locator = 0u64;
    let mut tracer = Tracer::new();
    let mut engine: Plain = Engine {
        world: "world",
        introspector: 1,
        route: Route::root(),
        locator: &mut locator,
        tracer: &mut tracer,
    };
    let value: u32 = engine.settle(Err(errors(&["x"])));
    assert_eq!(value, 0);
    let text: String = engine.settle(Err(errors(&["y", "z"])));
    assert_eq!(text, "");
    assert_eq!(tracer.delayed(), vec![errors(&["x"]), errors(&["y", "z"])]);
}

#[test]
fn an_engine_for_a_nested_step_shares_the_outer_chain() {
    let mut locator = 0u64;
    let mut tracer: Tracer<Errors> = Tracer::new();
    let root = Route::root();
    let entered = Route::insert(root.track(), FileId::from_raw(1));
    let mut engine: Plain = Engine {
        world: "world",
        introspector: 1,
        route: Route::extend(entered.track()),
        locator: &mut locator,
        tracer: &mut tracer,
    };
    let cyclic: bool = engine.delayed(|engine| {
        if engine.route.contains(FileId::from_raw(1)) {
            Err(errors(&["cyclic import"]))
        } else {
            Ok(false)
        }
    });
    assert!(!cyclic);
    assert!(!engine.route.exceeding());
    assert!(engine.route.within(1));
    assert!(!engine.route.within(0));
    assert_eq!(tracer.delayed(), vec![errors(&["cyclic import"])]);
}
