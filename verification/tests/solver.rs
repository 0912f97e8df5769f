use elden_runes::count::RuneCount;
use elden_runes::solver::Calculation;
use elden_runes::Error;

#[test]
fn simple_calcs() {
    let calc = Calculation {
        want: 200,
        ..Default::default()
    };
    let expected = RuneCount::single(0);
    assert_eq!(calc.without_inventory(), expected);

    let calc = Calculation {
        want: 420,
        ..Default::default()
    };
    let mut expected = RuneCount::default();
    expected.set_count(0, 1);
    expected.set_count(1, 1);
    assert_eq!(calc.without_inventory(), expected);

    let calc = Calculation {
        want: 1200,
        ..Default::default()
    };
    let expected = RuneCount::single(3);
    assert_eq!(calc.without_inventory(), expected);

    let calc = Calculation {
        have: 200,
        want: 2200,
        ..Default::default()
    };
    let expected = RuneCount::single(5);
    assert_eq!(calc.without_inventory(), expected);
}

#[test]
fn simple_inv_calcs() {
    let calc = Calculation {
        want: 10,
        ..Default::default()
    };
    let mut inv = RuneCount::from_counts(vec![1; 20]);
    let expected = RuneCount::single(0);
    assert_eq!(calc.with_inventory(&mut inv).unwrap(), expected);

    let calc = Calculation {
        have: 6606,
        want: 25000,
        ..Default::default()
    };
    let mut inv = RuneCount::from_counts(vec![
        67, 9, 9, 10, 11, 7, 2, 0, 1, 0, 0, 0, 0, 0, 0, 0, 0, 0, 0, 0,
    ]);
    let expected = RuneCount::from_counts(vec![
        0, 0, 0, 0, 1, 4, 2, 0, 1, 0, 0, 0, 0, 0, 0, 0, 0, 0, 0, 0,
    ]);
    assert_eq!(calc.with_inventory(&mut inv).unwrap(), expected);
}

#[test]
fn larger_is_better() {
    // Best you can do using only smaller runes is 2600 total, whereas
    // there's a single rune you can use for 2500
    let calc = Calculation {
        want: 2450,
        ..Default::default()
    };
    let expected = RuneCount::single(6);
    assert_eq!(calc.without_inventory(), expected);
}

#[test]
fn not_enough_smallest() {
    let calc = Calculation {
        want: 300,
        ..Default::default()
    };
    let mut inv = RuneCount::default();
    inv.set_count(0, 1);
    inv.set_count(3, 1);
    let expected = RuneCount::single(3);
    assert_eq!(calc.with_inventory(&mut inv).unwrap(), expected);
}

#[test]
fn exact_fit_single_item() {
    // a denomination exactly equal to the need is an immediate finish
    let calc = Calculation {
        want: 2500,
        ..Default::default()
    };
    assert_eq!(calc.without_inventory(), RuneCount::single(6));
}

#[test]
fn tie_prefers_single_item() {
    // 800 can be covered by one 800-item or two 400-items; the tie on
    // total value goes to the single item
    let calc = Calculation {
        want: 800,
        ..Default::default()
    };
    assert_eq!(calc.without_inventory(), RuneCount::single(2));
}

#[test]
fn plan_covers_need() {
    let calc = Calculation {
        have: 123,
        want: 44444,
        ..Default::default()
    };
    let plan = calc.without_inventory();
    assert!(plan.total() + 123 >= 44444);
}

#[test]
fn insufficient_supply_reports_shortfall() {
    let calc = Calculation {
        have: 100,
        want: 1000,
        ..Default::default()
    };
    // need is 900, the inventory covers only 600: 300 short
    let mut inv = RuneCount::default();
    inv.set_count(0, 3);
    assert_eq!(
        calc.with_inventory(&mut inv).unwrap_err(),
        Error::InsufficientSupply(300)
    );
    // the failed call leaves the inventory untouched
    assert_eq!(inv.get(0), 3);
}

#[test]
fn plan_already_satisfied() {
    let calc = Calculation {
        have: 500,
        want: 400,
        ..Default::default()
    };
    assert_eq!(calc.plan(None).unwrap_err(), Error::AlreadySatisfied);
}

#[test]
fn plan_updates_inventory() {
    let calc = Calculation {
        want: 300,
        ..Default::default()
    };
    let mut inv = RuneCount::default();
    inv.set_count(1, 2);
    let (plan, rest) = calc.plan(Some(inv)).unwrap();
    assert_eq!(plan, RuneCount::single(1));
    let rest = rest.unwrap();
    assert_eq!(rest.get(1), 1);
    assert_eq!(rest.total(), 400);
}

#[test]
fn inventory_is_respected() {
    let calc = Calculation {
        want: 1000,
        ..Default::default()
    };
    let mut inv = RuneCount::from_counts(vec![
        9, 0, 0, 0, 0, 0, 0, 0, 0, 0, 0, 0, 0, 0, 0, 0, 0, 0, 0, 0,
    ]);
    let plan = calc.with_inventory(&mut inv).unwrap();
    for i in 0..20 {
        assert!(plan.get(i) <= 9);
    }
    assert_eq!(plan.total(), 1000);
}
