use fiction_session::mapping::{
    apply_directed_turn, apply_turn, echoed_command, echoed_direction_command,
    is_death_relocation, offers_revival, parse_direction, reprinted_room_heading,
    rollback_tried_on_death, tried_record_for, tried_record_of, turn_reports_death, DeathWatch,
    Direction, MapAction, MapView,
};
use fiction_session::turn::{
    location_to_snapshot, Location, LocationMethod, ObjectSnapshot, TurnResult,
};

/// A map that carries out what a turn asks of it.
struct Graph {
    current: Option<u16>,
    rooms: Vec<u16>,
    connections: Vec<(u16, Direction, u16)>,
    tried: Vec<(u16, Direction)>,
}

impl Graph {
    fn new() -> Graph {
        Graph { current: None, rooms: vec![], connections: vec![], tried: vec![] }
    }

    fn enter(&mut self, room: u16, by: Option<Direction>) {
        if let (Some(from), Some(d)) = (self.current, by) {
            if from != room {
                self.connections.push((from, d, room));
            }
        }
        if !self.rooms.contains(&room) {
            self.rooms.push(room);
        }
        self.current = Some(room);
    }

    fn untried(&self, room: u16, d: Direction) -> bool {
        !self.tried.contains(&(room, d))
    }

    fn turn(&mut self, command: &str, result: &TurnResult, death: &mut DeathWatch) {
        let view = self.view();
        for a in apply_turn(&view, command, result, death) {
            match a {
                MapAction::MarkTried { room, dir } => self.tried.push((room, dir)),
                MapAction::UnmarkTried { room, dir } => self.tried.retain(|t| *t != (room, dir)),
                MapAction::Observe { room, by } => self.enter(room, by),
                MapAction::ObserveMoved { room, by } => self.enter(room, by),
                MapAction::ObserveRelocation { room } => self.enter(room, None),
                MapAction::SetLocMethod { .. } => {}
            }
        }
    }

    fn view(&self) -> MapView {
        MapView {
            current: self.current,
            empty: self.rooms.is_empty(),
            tried_here: self
                .tried
                .iter()
                .filter(|t| Some(t.0) == self.current)
                .map(|t| t.1)
                .collect(),
        }
    }
}

fn in_room(
    number: u16,
    name: &str,
    transcript: &str,
    location_method: Option<LocationMethod>,
) -> TurnResult {
    TurnResult {
        transcript: transcript.into(),
        location: Some(ObjectSnapshot { number, parent: 0, name: name.into() }),
        location_method,
        ..Default::default()
    }
}

fn nowhere(transcript: &str) -> TurnResult {
    TurnResult { transcript: transcript.into(), ..Default::default() }
}

#[test]
fn apply_turn_bridge_sets_current_and_creates_edge() {
    let mut m = Graph::new();
    m.turn("look", &in_room(1, "Hall", "", None), &mut Default::default());
    assert_eq!(m.current, Some(1));
    assert!(m.rooms.contains(&1));
    assert_eq!(m.connections.len(), 0, "first observe must not create edge");

    m.turn("north", &in_room(2, "Attic", "", None), &mut Default::default());
    assert!(m.rooms.contains(&2));
    assert_eq!(m.current, Some(2));
    assert_eq!(m.connections, vec![(1, Direction::N, 2)]);
}

#[test]
fn echoed_direction_command_accepts_only_whole_line_moves() {
    let echo = echoed_direction_command;
    assert_eq!(echo("north\nEntrance Hall\n   This is where..."), Some("north"));
    assert_eq!(echo("\n  southwest  \nSomewhere."), Some("southwest"));
    assert_eq!(echo("go north\nSomewhere."), Some("go north"));
    assert_eq!(echo("North of House\nYou are standing..."), None);
    assert_eq!(echo("Aft Storage\nA cramped hold."), None);
    assert_eq!(echo("go north now\n..."), None);
    assert_eq!(echo("You wake up.\nIt is dark."), None);
    assert_eq!(echo("look\nGallery"), None);
    assert_eq!(echo(""), None);
}

#[test]
fn apply_turn_noop_when_location_none() {
    let mut m = Graph::new();
    m.turn("look", &nowhere(""), &mut Default::default());
    assert_eq!(m.current, None);
}

#[test]
fn is_death_relocation_matches_infocom_and_inform_banners_only() {
    assert!(is_death_relocation(
        "Oh, no! A lurking grue slithered into the room and devoured you!\n \n   ****  You have died  **** \n\nForest\n"
    ));
    assert!(is_death_relocation("*** You have died ***"));
    assert!(!is_death_relocation("*** You have won ***"));
    assert!(!is_death_relocation("It is pitch black. You are likely to be eaten by a grue."));
    assert!(!is_death_relocation("A dead body lies in the corner of the crypt."));
}

#[test]
fn apply_turn_death_records_relocation_not_a_directional_edge() {
    let mut m = Graph::new();
    m.turn("", &in_room(1, "Living Room", "Living Room\n", None), &mut Default::default());
    m.turn(
        "down",
        &in_room(2, "Cellar", "You have moved into a dark place.\n", None),
        &mut Default::default(),
    );
    let edges_before = m.connections.len();
    m.turn(
        "north",
        &in_room(3, "Forest", "   ****  You have died  **** \n\nForest\n", None),
        &mut Default::default(),
    );
    assert_eq!(m.current, Some(3), "player is now in the resurrection room");
    assert_eq!(m.connections.len(), edges_before, "the death move must not add any edge");
    assert!(!m.connections.iter().any(|c| c.0 == 2 && c.2 == 3));
}

#[test]
fn apply_turn_gates_nameonly_until_first_real_room() {
    let mut m = Graph::new();
    m.turn(
        "",
        &in_room(111, "Frank Booth", "", Some(LocationMethod::NameOnly)),
        &mut Default::default(),
    );
    assert_eq!(m.rooms.len(), 0, "NameOnly must not seed an empty map");
    assert_eq!(m.current, None);

    m.turn(
        "",
        &in_room(48, "Hilltop", "", Some(LocationMethod::PlayerParent)),
        &mut Default::default(),
    );
    assert_eq!(m.current, Some(48));
    assert_eq!(m.rooms.len(), 1);

    m.turn(
        "north",
        &in_room(222, "Foggy Place", "", Some(LocationMethod::NameOnly)),
        &mut Default::default(),
    );
    assert_eq!(m.current, Some(222));
    assert_eq!(m.rooms.len(), 2);
}

#[test]
fn apply_turn_observes_roomheading_on_empty_map() {
    let mut m = Graph::new();
    m.turn(
        "",
        &in_room(333, "Orbiting Boony", "", Some(LocationMethod::RoomHeading)),
        &mut Default::default(),
    );
    assert_eq!(m.current, Some(333));
    assert_eq!(m.rooms.len(), 1);
}

#[test]
fn every_typed_direction_counts_as_tried_however_the_turn_ends() {
    let mut m = Graph::new();
    m.turn("", &in_room(1, "Hall", "", None), &mut Default::default());

    m.turn("north", &in_room(1, "Hall", "You can't go that way.", None), &mut Default::default());
    assert!(!m.untried(1, Direction::N), "a foiled move is still a try");

    m.turn("west", &nowhere("It is pitch black."), &mut Default::default());
    assert!(!m.untried(1, Direction::W), "no location detected is still a try");

    m.turn("east", &in_room(2, "Forest", "*** You have died ***", None), &mut Default::default());
    assert!(!m.untried(1, Direction::E), "the move that killed you is a try");
    assert_eq!(m.connections.len(), 0, "and still mints no false edge");

    assert!(m.untried(1, Direction::S) && m.untried(1, Direction::Up));
}

#[test]
fn turn_result_info_defaults_none_for_normal_turn() {
    let r = nowhere("You are in a maze.");
    assert!(r.info.is_none());
}

#[test]
fn an_unfinished_death_keeps_the_next_room_off_the_passages() {
    let mut m = Graph::new();
    let mut death = DeathWatch::default();
    m.turn("", &in_room(1, "Cellar", "", None), &mut death);
    m.turn("north", &nowhere("*** You have died ***"), &mut death);
    assert!(death.unresolved);
    m.turn("east", &in_room(7, "Forest", "", None), &mut death);
    assert!(!death.unresolved);
    assert_eq!(m.current, Some(7));
    assert!(m.connections.is_empty());
    m.turn("east", &in_room(8, "Glade", "", None), &mut death);
    assert_eq!(m.connections, vec![(7, Direction::E, 8)]);
}

#[test]
fn directions_are_read_from_the_first_word() {
    assert_eq!(parse_direction("ne"), Some(Direction::Ne));
    assert_eq!(parse_direction("  NORTH "), Some(Direction::N));
    assert_eq!(parse_direction("go up"), Some(Direction::Up));
    assert_eq!(parse_direction("look"), None);
    assert_eq!(parse_direction(""), None);
    assert_eq!(echoed_direction_command("u\n"), Some("u"));
}

#[test]
fn a_fatal_move_is_taken_off_the_record() {
    let view = MapView { current: Some(4), empty: false, tried_here: vec![] };
    let attempted = tried_record_for(&view, "north");
    assert_eq!(attempted, Some((4, Direction::N)));
    let mut death = DeathWatch::default();
    let undo = rollback_tried_on_death(&view, &mut death, attempted, true);
    assert_eq!(undo, Some(MapAction::UnmarkTried { room: 4, dir: Direction::N }));
    assert_eq!(death.pending_tried, None);

    let known = MapView { current: Some(4), empty: false, tried_here: vec![Direction::N] };
    assert_eq!(tried_record_for(&known, "north"), None);
    assert_eq!(tried_record_for(&view, "look"), None);
}

#[test]
fn deaths_and_revivals_are_told_by_their_wording() {
    assert!(turn_reports_death("*** You have died ***"));
    assert!(!turn_reports_death("You are standing in a field."));
    assert!(!offers_revival("You are standing in a field."));
}

#[test]
fn a_heading_stands_on_a_line_of_its_own() {
    assert!(reprinted_room_heading("Attic\nDusty.", "Attic"));
    assert!(!reprinted_room_heading("You see the Attic stairs.", "Attic"));
}

#[test]
fn a_bare_name_gets_the_number_made_from_it() {
    let named = Location::NameOnly("Foggy Place".into());
    assert_eq!(named.method(), LocationMethod::NameOnly);
    let snap = location_to_snapshot(named, 222);
    assert_eq!((snap.number, snap.parent, snap.name.as_str()), (222, 0, "Foggy Place"));
    let real = Location::Global(ObjectSnapshot { number: 5, parent: 1, name: "Den".into() });
    assert_eq!(real.method(), LocationMethod::Global);
    assert_eq!(location_to_snapshot(real, 222).number, 5);
}

#[test]
fn a_record_is_held_only_in_the_room_it_was_made_in() {
    let here = MapView { current: Some(4), empty: false, tried_here: vec![Direction::N] };
    let mut death = DeathWatch { pending_tried: Some((4, Direction::N)), unresolved: false };
    assert_eq!(rollback_tried_on_death(&here, &mut death, None, false), None);
    assert_eq!(death.pending_tried, Some((4, Direction::N)));
    let away = MapView { current: Some(5), empty: false, tried_here: vec![] };
    assert_eq!(rollback_tried_on_death(&away, &mut death, None, false), None);
    assert_eq!(death.pending_tried, None);
}

#[test]
fn an_offer_to_reincarnate_reports_a_death() {
    let pit = "You fell into a pit and broke every bone in your body! Now how am I supposed to \
               do anything? You seem to have gotten yourself killed. Do you want me to try to \
               reincarnate you?";
    assert!(offers_revival(pit));
    assert!(turn_reports_death(pit));
    assert!(!is_death_relocation(pit));
    assert!(!offers_revival("The priest can resurrect kings."));
}

#[test]
fn a_turn_is_mapped_by_the_direction_it_is_given() {
    let here = MapView { current: Some(1), empty: false, tried_here: vec![Direction::N] };
    assert_eq!(tried_record_of(&here, Some(Direction::S)), Some((1, Direction::S)));
    assert_eq!(tried_record_of(&here, Some(Direction::N)), None, "on record already");
    assert_eq!(tried_record_of(&here, None), None);
    let mut death = DeathWatch::default();
    let result = TurnResult { transcript: "You walk.".into(), ..TurnResult::default() };
    assert_eq!(
        apply_directed_turn(&here, Some(Direction::Port), &result, &mut death),
        vec![MapAction::MarkTried { room: 1, dir: Direction::Port }]
    );
    assert_eq!(apply_directed_turn(&here, None, &result, &mut death), vec![]);
}

#[test]
fn an_echo_is_a_short_line_at_the_head() {
    assert_eq!(echoed_command("\n  xyzzy \nHall"), Some("xyzzy"));
    assert_eq!(echoed_command("GO sideways\nHall"), Some("GO sideways"));
    assert_eq!(echoed_command("North of House"), None);
    assert_eq!(echoed_command(" \n"), None);
}
