use vts::place::{Placer, State};

struct Step(u32);

impl State for Step {}

struct Counter {
    limit: u32,
}

impl Placer<Step> for Counter {
    type Ctx = ();
    type Err = String;

    fn setup<'cx>(&mut self, _ctx: &'cx (), state: Step) -> Result<(), String> {
        if state.0 > self.limit {
            Err("past the limit".to_string())
        } else {
            Ok(())
        }
    }

    fn step<'cx>(&mut self, _ctx: &'cx (), state: Step) -> Result<Step, String> {
        if state.0 >= self.limit {
            Err("done".to_string())
        } else {
            Ok(Step(state.0 + 1))
        }
    }
}

#[test]
fn test_placer_steps() {
    let mut placer = Counter { limit: 2 };
    assert!(placer.setup(&(), Step(0)).is_ok());
    let s = placer.step(&(), Step(0)).unwrap();
    let s = placer.step(&(), s).unwrap();
    assert_eq!(s.0, 2);
    assert!(placer.step(&(), s).is_err());
}
