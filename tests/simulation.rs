use ifengine::action::Action;
use ifengine::errors::{GameError, SimEnd};
use ifengine::game::Game;
use ifengine::page::{PageErased, PageHandle, Response};
use ifengine::sim::{PageRecord, PageRecords, Simulation, SimulationState, Simulator};
use ifengine::tags::GameTags;
use ifengine::view::{Line, Object, Span, View};

#[derive(Debug, Clone, Copy, PartialEq)]
struct Pg(u8);

fn link(text: &str, action: Action<Pg>) -> Span<Pg> {
    Span::new(text.to_string()).as_link().with_action(action)
}

fn next(name: &str, n: u8) -> Action<Pg> {
    Action::Next(PageHandle::new(format!("story::{}", name), Pg(n)))
}

fn page(id: &str, spans: Vec<Span<Pg>>) -> Response<Pg> {
    let mut v = View::new(id.to_string());
    v.push(Object::Paragraph(Line::from_spans(spans)));
    Response::View(v)
}

impl PageErased<()> for Pg {
    fn call(&self, _game: &mut Game<(), Pg>) -> Response<Pg> {
        match self.0 {
            0 => page(
                "Start",
                vec![
                    link("b", next("B", 1)),
                    link("c", next("C", 2)),
                    link("t", Action::Tunnel(PageHandle::new("story::T".to_string(), Pg(4)))),
                ],
            ),
            1 => page("B", vec![link("d", next("D", 3))]),
            2 => page("C", vec![Span::new("plain".to_string()), link("d", next("D", 3))]),
            3 => {
                let mut v = View::new("D".to_string());
                v.tags.push("dark".to_string());
                v.push(Object::Text(Line::from_spans(vec![link("leave", Action::Exit), link("noop", Action::Noop)])));
                Response::View(v)
            }
            4 => page("T", vec![link("home", next("Start", 0))]),
            5 => Response::Back(3),
            _ => Response::End,
        }
    }
}

fn simulate(game: &Game<(), Pg>, mut visitor: impl FnMut(&mut SimulationState<(), Pg>) -> bool) -> Simulation {
    let mut sim = Simulator::new(game);
    while let Some(mut s) = sim.next_state() {
        let mut page = match s.game.begin_view() {
            Ok(p) => p,
            Err(_) => continue,
        };
        if visitor(&mut s) {
            continue;
        }
        loop {
            let r = page.call(&mut s.game);
            match sim.resolve(&mut s, page, r) {
                Some(p) => page = p,
                None => break,
            }
        }
    }
    sim.finish()
}

fn record<'a>(sim: &'a Simulation, run: &str, id: &str) -> &'a PageRecord {
    sim.runs.get(&run.to_string()).unwrap().get(&id.to_string()).unwrap()
}

#[test]
fn tunnel_guarded_cycle_terminates() {
    let game: Game<(), Pg> = Game::new_with_page("story::Start".to_string(), Pg(0));
    let sim = simulate(&game, |s| s.depth > 6);
    assert_eq!(sim.runs.len(), 2);
    let main = sim.runs.get(&"Start".to_string()).unwrap();
    assert_eq!(main.len(), 4);
    let tunnel = sim.runs.get(&"T".to_string()).unwrap();
    assert_eq!(tunnel.len(), 5);
    assert_eq!(record(&sim, "T", "T").min_depth, 0);
    assert_eq!(record(&sim, "T", "Start").min_depth, 1);
    assert_eq!(record(&sim, "T", "D").min_depth, 3);
}

#[test]
fn records_merge_predecessors() {
    let game: Game<(), Pg> = Game::new_with_page("story::Start".to_string(), Pg(0));
    let sim = simulate(&game, |s| s.depth > 6);
    let d = record(&sim, "Start", "D");
    assert!(d.incoming.contains("B"));
    assert!(d.incoming.contains("C"));
    assert_eq!(d.incoming.len(), 2);
    assert_eq!(d.min_depth, 2);
    assert!(d.tags.contains("dark"));
    assert_eq!(d.ends, vec![SimEnd::TunnelExit]);
    let start = record(&sim, "Start", "Start");
    assert_eq!(start.min_depth, 0);
    assert!(start.incoming.is_empty());
    assert_eq!(start.ends, vec![SimEnd::Tunnel("T".to_string())]);
    assert_eq!(sim.runs.get(&"Start".to_string()).unwrap().depth(), 2);
    assert_eq!(sim.runs.get(&"T".to_string()).unwrap().depth(), 3);
}

#[test]
fn visitor_caps_depth() {
    let game: Game<(), Pg> = Game::new_with_page("story::Start".to_string(), Pg(0));
    let sim = simulate(&game, |s| s.depth > 0);
    let main = sim.runs.get(&"Start".to_string()).unwrap();
    assert_eq!(main.len(), 1);
    assert_eq!(main.depth(), 0);
}

#[test]
fn failed_resolution_ends_branch_quietly() {
    let game: Game<(), Pg> = Game::new_with_page("story::X".to_string(), Pg(5));
    let sim = simulate(&game, |_| false);
    assert_eq!(sim.runs.len(), 1);
    let run = sim.runs.get(&"X".to_string()).unwrap();
    assert_eq!(run.len(), 0);
    assert_eq!(run.depth(), 0);
}

#[test]
fn ends_are_recorded_on_known_pages() {
    let mut records = PageRecords::new();
    let game: Game<(), Pg> = Game::new_with_page("story::X".to_string(), Pg(5));
    let mut s = SimulationState::new(game);
    s.depth = 4;
    s.last = Some("W".to_string());
    let mut v: View<Pg> = View::new("X".to_string());
    v.tags.push("t".to_string());
    records.insert_view(&s, &mut v);
    assert!(v.tags.is_empty());
    records.push_sim_end(&"X".to_string(), SimEnd::GameError(GameError::NoPage));
    records.push_sim_end(&"Y".to_string(), SimEnd::TunnelExit);
    let x = records.get(&"X".to_string()).unwrap();
    assert_eq!(x.ends, vec![SimEnd::GameError(GameError::NoPage)]);
    assert_eq!(x.min_depth, 4);
    assert!(x.incoming.contains("W"));
    assert!(x.tags.contains("t"));
    assert!(records.get(&"Y".to_string()).is_none());
    assert_eq!(records.depth(), 4);
}

#[test]
fn record_helpers() {
    let mut r = PageRecord::new("p".to_string());
    assert!(r.is_empty());
    assert_eq!(r.min_depth, usize::MAX);
    assert_eq!(r.compute_display_width(), 6);
    r.add_end(SimEnd::TunnelExit);
    r.add_end(SimEnd::TunnelExit);
    assert_eq!(r.ends.len(), 1);
    assert_eq!(r.compute_display_width(), "TunnelExit".len());
    r.add_end(SimEnd::Custom("died of exposure".to_string()));
    assert_eq!(r.compute_display_width(), format!("{:?}", SimEnd::Custom("died of exposure".to_string())).len());
    let mut tags = GameTags::new();
    tags.insert("a-very-long-tag-name-indeed".to_string());
    r.tags = tags;
    assert_eq!(r.compute_display_width(), 27);
    assert!(!r.is_empty());
    r.incoming.insert("q".to_string());
    let (rest, incoming) = r.split();
    assert!(rest.incoming.is_empty());
    assert!(incoming.contains("q"));
}

#[test]
fn sim_end_from_game_error() {
    assert_eq!(SimEnd::from(GameError::End), SimEnd::GameError(GameError::End));
    assert_ne!(SimEnd::Tunnel("a".to_string()), SimEnd::Tunnel("b".to_string()));
}
