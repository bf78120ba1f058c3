use ifengine::errors::GameError;
use ifengine::game::{response_id, Game, PageStack, Resolution};
use ifengine::page::{PageErased, PageHandle, Response};
use ifengine::view::{Line, Object, View};

#[derive(Debug, Clone, Copy, Default, PartialEq)]
struct Pg(u8);

fn choice_line(text: &str) -> Line<Pg> {
    Line::from_iter(vec![text.to_string()])
}

impl PageErased<()> for Pg {
    fn call(&self, _game: &mut Game<(), Pg>) -> Response<Pg> {
        match self.0 {
            // A page with one choice list under key 7.
            0 => {
                let mut v = View::new("A".to_string());
                v.push(Object::Choice(7, vec![(0, choice_line("left")), (1, choice_line("right"))]));
                Response::View(v)
            }
            1 => Response::Back(1),
            2 => Response::Tunnel(PageHandle::new("story::Y".to_string(), Pg(3))),
            3 => Response::View(View::new("Y".to_string())),
            4 => Response::Switch(PageHandle::new("story::A".to_string(), Pg(0))),
            5 => Response::End,
            6 => Response::Exit,
            _ => Response::View(View::new("Z".to_string())),
        }
    }
}

fn view(game: &mut Game<(), Pg>) -> Result<View<Pg>, GameError> {
    let mut page = game.begin_view()?;
    loop {
        let r = page.call(game);
        match game.resolve(page, r)? {
            Resolution::Viewed(v) => return Ok(v),
            Resolution::Continue(p) => page = p,
        }
    }
}

fn handle(id: &str, n: u8) -> PageHandle<Pg> {
    PageHandle::new(id.to_string(), Pg(n))
}

#[test]
fn push_same_id_is_noop() {
    let mut stack = PageStack::new_with_page(handle("A", 0));
    assert_eq!(stack.push(handle("A", 9)), Ok(()));
    assert_eq!(stack.len(), 1);
    assert_eq!(stack.current().unwrap().widget, Pg(0));
    assert_eq!(stack.push(handle("B", 1)), Ok(()));
    assert_eq!(stack.len(), 2);
}

#[test]
fn pop_then_push_restores_frame() {
    let mut stack = PageStack::new_with_page(handle("A", 0));
    stack.push(handle("B", 1)).unwrap();
    stack.push(handle("C", 2)).unwrap();
    let top = stack.pop_n(2).unwrap();
    assert_eq!(top.id, "A");
    assert_eq!(stack.len(), 1);
    stack.push(handle("B", 1)).unwrap();
    stack.push(handle("C", 2)).unwrap();
    assert_eq!(stack.len(), 3);
    assert_eq!(stack.current().unwrap().id, "C");
    assert_eq!(stack.pop_n(1).unwrap().id, "B");
}

#[test]
fn pop_n_must_leave_one_entry() {
    let mut stack = PageStack::new_with_page(handle("A", 0));
    stack.push(handle("B", 1)).unwrap();
    assert_eq!(stack.pop_n(2).unwrap_err(), GameError::NoPage);
    assert_eq!(stack.len(), 2);
    assert_eq!(stack.pop_n(0).unwrap().id, "B");
}

#[test]
fn tunnel_isolates_history() {
    let mut stack = PageStack::new_with_page(handle("A", 0));
    stack.push(handle("B", 1)).unwrap();
    stack.adv_stack();
    assert!(stack.current().is_none());
    assert!(stack.is_empty());
    assert_eq!(stack.pop_n(0).unwrap_err(), GameError::NoPage);
    assert_eq!(stack.pop_n(1).unwrap_err(), GameError::NoPage);
    let frame = stack.pop_stack().unwrap();
    assert!(frame.is_empty());
    assert_eq!(stack.current().unwrap().id, "B");
    assert_eq!(stack.len(), 2);
}

#[test]
fn last_frame_is_never_popped() {
    let mut stack = PageStack::new_with_page(handle("A", 0));
    assert!(stack.pop_stack().is_none());
    assert_eq!(stack.len(), 1);
}

#[test]
fn push_without_frames_fails() {
    let mut stack: PageStack<Pg> = PageStack::default();
    assert_eq!(stack.push(handle("A", 0)), Err(GameError::NoStack));
    assert_eq!(stack.pop_n(0).unwrap_err(), GameError::NoStack);
    assert_eq!(stack.len(), 0);
}

#[test]
fn pop_and_clear() {
    let mut stack = PageStack::new_with_page(handle("A", 0));
    stack.push(handle("B", 1)).unwrap();
    assert_eq!(stack.pop().unwrap().id, "B");
    stack.clear();
    assert!(stack.is_empty());
    assert!(stack.pop().is_none());
}

#[test]
fn choice_scenario_sets_bit() {
    let mut game: Game<(), Pg> = Game::new_with_page(String::new(), Pg(0));
    let v = view(&mut game).unwrap();
    assert_eq!(v.pageid, "A");
    assert_eq!(game.inner.pages.len(), 1);
    assert_eq!(game.inner.pages.current().unwrap().id, "A");
    let items = v.interactables_flat();
    assert_eq!(items.len(), 2);
    let nested = v.interactables();
    assert_eq!(nested.len(), 1);
    assert_eq!(nested[0].len(), 2);
    match items[0] {
        ifengine::interact::Interactable::Choice(key, _, index) => {
            assert_eq!(*key, 7);
            assert_eq!(index, 0);
        }
        _ => panic!("expected a choice"),
    }
    match items[1] {
        ifengine::interact::Interactable::Choice(key, _, index) => {
            assert_eq!(*key, 7);
            assert_eq!(index, 1);
        }
        _ => panic!("expected a choice"),
    }
    assert_eq!(items[1].content(), "right");
    game.interact(items[0], &v.pageid).unwrap();
    let page = game.inner.state.page(&"A".to_string()).unwrap();
    assert_eq!(page.get(7), Some(0b1));
}

#[test]
fn back_past_frame_start_fails() {
    let mut game: Game<(), Pg> = Game::new_with_page("start".to_string(), Pg(1));
    assert_eq!(view(&mut game).unwrap_err(), GameError::NoPage);
}

#[test]
fn tunnel_response_opens_fresh_frame() {
    let mut game: Game<(), Pg> = Game::new_with_page("X".to_string(), Pg(2));
    let v = view(&mut game).unwrap();
    assert_eq!(v.pageid, "Y");
    assert_eq!(game.inner.pages.len(), 1);
    assert_eq!(game.inner.pages.current().unwrap().id, "Y");
    assert_eq!(game.inner.pages.current().unwrap().widget, Pg(3));
    // the parent frame is still there, under the new one
    assert!(game.inner.pages.pop_stack().is_some());
    assert_eq!(game.inner.pages.current().unwrap().id, "X");
}

#[test]
fn switch_is_invisible() {
    let mut game: Game<(), Pg> = Game::new_with_page("dispatch".to_string(), Pg(4));
    let v = view(&mut game).unwrap();
    assert_eq!(v.pageid, "A");
    assert_eq!(game.inner.pages.len(), 2);
    assert_eq!(game.inner.pages.current().unwrap().id, "A");
}

#[test]
fn end_and_exit_at_top_end_the_game() {
    let mut game: Game<(), Pg> = Game::new_with_page("e".to_string(), Pg(5));
    assert_eq!(view(&mut game).unwrap_err(), GameError::End);
    let mut game: Game<(), Pg> = Game::new_with_page("x".to_string(), Pg(6));
    assert_eq!(view(&mut game).unwrap_err(), GameError::End);
}

#[test]
fn view_without_page_fails() {
    let mut game: Game<(), Pg> = Game::new_with_page("A".to_string(), Pg(0));
    game.inner.pages.clear();
    assert_eq!(view(&mut game).unwrap_err(), GameError::NoPage);
}

#[test]
fn id_peeks_without_changing_history() {
    let game: Game<(), Pg> = Game::new_with_page(String::new(), Pg(0));
    assert_eq!(game.id(), Some("A".to_string()));
    assert_eq!(game.inner.pages.len(), 1);
    assert_eq!(game.inner.pages.current().unwrap().id, "");
    let back: Game<(), Pg> = Game::new_with_page(String::new(), Pg(1));
    assert_eq!(back.id(), None);
}

#[test]
fn new_game_is_fresh() {
    let game: Game<(), Pg> = Game::new_with_page("A".to_string(), Pg(0));
    assert!(game.inner.fresh);
    assert_eq!(game.inner.iterations, 0);
    assert!(!game.simulating());
    assert!(game.tags.is_empty());
}

#[test]
fn current_mut_changes_top_in_place() {
    let mut stack = PageStack::new_with_page(handle("A", 0));
    stack.push(handle("B", 1)).unwrap();
    stack.current_mut().unwrap().id = "B2".to_string();
    assert_eq!(stack.current().unwrap().id, "B2");
    assert_eq!(stack.len(), 2);
    stack.adv_stack();
    assert!(stack.current_mut().is_none());
}

#[test]
fn response_id_reads_views_only() {
    assert_eq!(response_id(Response::<Pg>::View(View::new("V".to_string()))), Some("V".to_string()));
    assert_eq!(response_id(Response::<Pg>::Back(1)), None);
    assert_eq!(response_id(Response::<Pg>::End), None);
}
