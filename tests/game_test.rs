use herpooles::game::{
    hit_zombie, move_herpooles, move_poo, move_zombie, step, strike_zombies, zombies_reached, Arena,
    Controller, Direction, Herpooles, Poo, Zombie, BASE_SPEED, MAX_LEVEL, SPAWN_SPAN, SPAWN_Y,
};
use herpooles::PressedKeys;

fn arena() -> Arena {
    Arena { width: 1_000_000, height: 800_000 }
}

fn zombie(x: i64, y: i64) -> Zombie {
    Zombie { x, y, walking: true }
}

fn keys(right: bool, left: bool, up: bool, down: bool) -> PressedKeys {
    PressedKeys { right, left, up, down }
}

fn player_at(x: i64, y: i64) -> Herpooles {
    let mut h = Herpooles::new();
    h.x = x;
    h.y = y;
    h
}

#[test]
fn new_player_starts_alive_in_the_middle() {
    let h = Herpooles::new();
    assert_eq!((h.x, h.y), (500_000, 500_000));
    assert!(h.is_alive());
    assert!(h.poo.is_empty());
    assert_eq!(h.bearing, Direction::North);
    assert_eq!(h.color(), "green");
}

#[test]
fn dead_player_is_drawn_red() {
    let mut h = Herpooles::new();
    h.dead = true;
    assert!(!h.is_alive());
    assert_eq!(h.color(), "red");
}

#[test]
fn fire_appends_projectile_at_player_facing_its_way() {
    let mut h = player_at(100_000, 200_000);
    h.bearing = Direction::West;
    h.fire_poo();
    h.fire_poo();
    assert_eq!(h.poo.len(), 2);
    for p in h.poo.iter() {
        assert_eq!((p.x, p.y), (100_000, 200_000));
        assert_eq!(p.direction, Direction::West);
        assert!(!p.must_clean);
    }
}

#[test]
fn right_and_down_move_diagonally_and_face_south() {
    let mut h = Herpooles::new();
    move_herpooles(&mut h, &keys(true, false, false, true), &arena());
    assert_eq!((h.x, h.y), (502_000, 502_000));
    assert_eq!(h.bearing, Direction::South);
}

#[test]
fn left_and_up_move_diagonally_and_face_north() {
    let mut h = Herpooles::new();
    move_herpooles(&mut h, &keys(false, true, true, false), &arena());
    assert_eq!((h.x, h.y), (498_000, 498_000));
    assert_eq!(h.bearing, Direction::North);
}

#[test]
fn all_keys_cancel_out_and_face_south() {
    let mut h = Herpooles::new();
    move_herpooles(&mut h, &keys(true, true, true, true), &arena());
    assert_eq!((h.x, h.y), (500_000, 500_000));
    assert_eq!(h.bearing, Direction::South);
}

#[test]
fn no_key_keeps_player_and_bearing() {
    let mut h = Herpooles::new();
    h.bearing = Direction::East;
    move_herpooles(&mut h, &PressedKeys::default(), &arena());
    assert_eq!((h.x, h.y), (500_000, 500_000));
    assert_eq!(h.bearing, Direction::East);
}

#[test]
fn walls_stop_the_player() {
    let mut h = player_at(0, 0);
    h.bearing = Direction::East;
    move_herpooles(&mut h, &keys(false, true, true, false), &arena());
    assert_eq!((h.x, h.y), (0, 0));
    assert_eq!(h.bearing, Direction::East);

    let mut h = player_at(1_000_000, 800_000);
    move_herpooles(&mut h, &keys(true, false, false, true), &arena());
    assert_eq!((h.x, h.y), (1_000_000, 800_000));

    // A step that would cross the wall is not taken at all.
    let mut h = player_at(999_000, 799_000);
    move_herpooles(&mut h, &keys(true, false, false, true), &arena());
    assert_eq!((h.x, h.y), (999_000, 799_000));
    assert_eq!(h.bearing, Direction::North);
}

#[test]
fn player_stays_in_arena_for_every_key_combination() {
    let a = arena();
    let starts = [(0, 0), (1_000, 1_000), (1_000_000, 800_000), (999_999, 0), (500_000, 799_000)];
    for &(x, y) in starts.iter() {
        for bits in 0u8..16 {
            let k = keys(bits & 1 != 0, bits & 2 != 0, bits & 4 != 0, bits & 8 != 0);
            let mut h = player_at(x, y);
            for _ in 0..3 {
                move_herpooles(&mut h, &k, &a);
                assert!(0 <= h.x && h.x <= a.width);
                assert!(0 <= h.y && h.y <= a.height);
            }
        }
    }
}

#[test]
fn zombie_steps_toward_player_at_its_speed() {
    let h = player_at(300_000, 400_000);
    let mut z = zombie(0, 0);
    move_zombie(&mut z, &h, &500);
    assert_eq!((z.x, z.y), (300, 400));
    assert!(z.walking);
}

#[test]
fn zombie_on_the_player_does_not_move() {
    let h = player_at(300_000, 400_000);
    let mut z = zombie(300_000, 400_000);
    move_zombie(&mut z, &h, &500);
    assert_eq!((z.x, z.y), (300_000, 400_000));
}

#[test]
fn steering_shrinks_distance_while_farther_than_speed() {
    let h = Herpooles::new();
    let starts = [(0, 0), (1_000_000, 0), (500_000, 200_000), (-3_000_000, 7_000_000), (500_600, 500_001)];
    for &(x, y) in starts.iter() {
        let mut z = zombie(x, y);
        let speed: u32 = 500;
        let mut d = (h.x - z.x) * (h.x - z.x) + (h.y - z.y) * (h.y - z.y);
        while d > (speed as i64) * (speed as i64) {
            move_zombie(&mut z, &h, &speed);
            let next = (h.x - z.x) * (h.x - z.x) + (h.y - z.y) * (h.y - z.y);
            assert!(next < d, "from ({}, {}): {} then {}", x, y, d, next);
            d = next;
        }
    }
}

#[test]
fn projectiles_fly_six_tenths_of_a_unit_per_tick() {
    let cases = [
        (Direction::North, (100_000, 99_400)),
        (Direction::East, (100_600, 100_000)),
        (Direction::South, (100_000, 100_600)),
        (Direction::West, (99_400, 100_000)),
    ];
    for &(d, expected) in cases.iter() {
        let mut p = Poo::new(&100_000, &100_000, d);
        move_poo(&mut p);
        assert_eq!((p.x, p.y), expected);
        assert_eq!(p.direction, d);
        assert!(!p.must_clean);
    }
}

#[test]
fn contact_needs_squared_distance_under_four_hundred() {
    let h = Herpooles::new();
    assert!(!zombies_reached(&h, &zombie(500_000, 520_000)));
    assert!(zombies_reached(&h, &zombie(500_000, 519_999)));
    assert!(zombies_reached(&h, &zombie(500_000, 500_000)));
    assert!(!zombies_reached(&h, &zombie(512_000, 516_000)));
    assert!(zombies_reached(&h, &zombie(511_999, 516_000)));
}

#[test]
fn spent_projectile_hits_nothing() {
    let mut p = Poo::new(&100_000, &100_000, Direction::East);
    let z = zombie(110_000, 100_000);
    assert!(hit_zombie(&p, &z));
    p.must_clean = true;
    assert!(!hit_zombie(&p, &z));
}

#[test]
fn projectile_kills_enemy_in_range() {
    let mut poo = vec![Poo::new(&100_000, &100_000, Direction::East)];
    let mut zombies = vec![zombie(110_000, 100_000)];
    let kills = strike_zombies(&mut poo, &mut zombies);
    assert_eq!(kills, 1);
    assert!(poo[0].must_clean);
    assert!(!zombies[0].walking);
}

#[test]
fn projectile_out_of_range_hits_nothing() {
    let mut poo = vec![Poo::new(&100_000, &100_000, Direction::East)];
    let mut zombies = vec![zombie(120_000, 100_000)];
    let kills = strike_zombies(&mut poo, &mut zombies);
    assert_eq!(kills, 0);
    assert!(!poo[0].must_clean);
    assert!(zombies[0].walking);
}

#[test]
fn projectile_kills_only_the_first_enemy_it_touches() {
    let mut poo = vec![Poo::new(&100_000, &100_000, Direction::East)];
    let mut zombies = vec![zombie(300_000, 300_000), zombie(105_000, 100_000), zombie(100_000, 105_000)];
    let kills = strike_zombies(&mut poo, &mut zombies);
    assert_eq!(kills, 1);
    assert!(poo[0].must_clean);
    assert!(zombies[0].walking);
    assert!(!zombies[1].walking);
    assert!(zombies[2].walking);
}

#[test]
fn two_projectiles_on_one_enemy_score_twice() {
    let mut poo = vec![
        Poo::new(&100_000, &100_000, Direction::East),
        Poo::new(&101_000, &100_000, Direction::West),
    ];
    let mut zombies = vec![zombie(105_000, 100_000)];
    let kills = strike_zombies(&mut poo, &mut zombies);
    assert_eq!(kills, 2);
    assert!(poo[0].must_clean && poo[1].must_clean);
    assert!(!zombies[0].walking);
}

#[test]
fn enemy_within_contact_kills_player_in_a_step() {
    let mut h = Herpooles::new();
    let mut c = Controller::new(vec![zombie(500_000, 520_000)]);
    assert!(h.is_alive());
    step(&arena(), &mut h, &PressedKeys::default(), &mut c);
    assert!(!h.is_alive());
    assert_eq!((c.zombies[0].x, c.zombies[0].y), (500_000, 519_500));
}

#[test]
fn far_enemy_leaves_player_alive() {
    let mut h = Herpooles::new();
    let mut c = Controller::new(vec![zombie(500_000, 200_000)]);
    step(&arena(), &mut h, &PressedKeys::default(), &mut c);
    assert!(h.is_alive());
}

#[test]
fn projectile_kill_in_a_step_scores_and_cleans_up() {
    let mut h = Herpooles::new();
    h.poo.push(Poo::new(&100_000, &100_000, Direction::East));
    let mut c = Controller::new(vec![zombie(110_000, 100_000)]);
    step(&arena(), &mut h, &PressedKeys::default(), &mut c);
    assert_eq!(c.score, 1);
    assert!(h.poo.is_empty());
    assert!(c.zombies.is_empty());
    assert!(h.is_alive());
}

#[test]
fn projectile_leaving_the_arena_is_removed() {
    let mut h = Herpooles::new();
    h.poo.push(Poo::new(&0, &400_000, Direction::West));
    h.poo.push(Poo::new(&300_000, &400_000, Direction::North));
    let mut c = Controller::new(vec![zombie(900_000, 100_000)]);
    step(&arena(), &mut h, &PressedKeys::default(), &mut c);
    assert_eq!(h.poo.len(), 1);
    assert_eq!((h.poo[0].x, h.poo[0].y), (300_000, 399_400));
    assert!(h.poo.iter().all(|p| !p.must_clean));
    assert!(c.zombies.iter().all(|z| z.walking));
    assert_eq!(c.score, 0);
}

#[test]
fn score_counts_kills_across_ticks() {
    let a = arena();
    let mut h = Herpooles::new();
    let mut c = Controller::new(vec![
        zombie(110_000, 100_000),
        zombie(900_000, 100_000),
        zombie(100_000, 700_000),
    ]);
    h.poo.push(Poo::new(&100_000, &100_000, Direction::East));
    step(&a, &mut h, &PressedKeys::default(), &mut c);
    assert_eq!(c.score, 1);
    assert_eq!(c.zombies.len(), 2);

    step(&a, &mut h, &PressedKeys::default(), &mut c);
    assert_eq!(c.score, 1);

    h.poo.push(Poo::new(&890_000, &100_000, Direction::East));
    step(&a, &mut h, &PressedKeys::default(), &mut c);
    assert_eq!(c.score, 2);
    assert_eq!(c.zombies.len(), 1);
    assert_eq!(c.level, 1);
}

#[test]
fn new_controller_starts_at_level_one() {
    let c = Controller::new(vec![zombie(1, 2)]);
    assert_eq!(c.level, 1);
    assert_eq!(c.num_zombies, 10);
    assert_eq!(c.speed, BASE_SPEED);
    assert_eq!(c.score, 0);
    assert_eq!(c.zombies.len(), 1);
}

#[test]
fn check_keeps_a_wave_with_enemies_left() {
    let mut c = Controller::new(vec![zombie(1, 2)]);
    c.check();
    assert_eq!(c.level, 1);
    assert_eq!(c.zombies.len(), 1);
    assert_eq!((c.zombies[0].x, c.zombies[0].y), (1, 2));
}

#[test]
fn cleared_wave_starts_the_next_level() {
    let mut c = Controller::new(vec![]);
    c.check();
    assert_eq!(c.level, 2);
    assert_eq!(c.num_zombies, 20);
    assert_eq!(c.speed, 600);
    assert_eq!(c.zombies.len(), 20);
    for z in c.zombies.iter() {
        assert!(z.walking);
        assert_eq!(z.y, SPAWN_Y);
        assert!(0 <= z.x && (z.x as u64) < SPAWN_SPAN);
    }
}

#[test]
fn cleared_wave_from_a_higher_level() {
    let mut c = Controller { level: 3, num_zombies: 30, speed: 700, zombies: vec![], score: 57 };
    c.check();
    assert_eq!((c.level, c.num_zombies, c.speed, c.score), (4, 40, 800, 57));
    assert_eq!(c.zombies.len(), 40);
}

#[test]
fn last_wave_fits_the_counter() {
    let mut c = Controller {
        level: MAX_LEVEL - 1,
        num_zombies: (MAX_LEVEL - 1) * 10,
        speed: 500 + 100 * (MAX_LEVEL as u32 - 2),
        zombies: vec![],
        score: 0,
    };
    c.check();
    assert_eq!(c.level, MAX_LEVEL);
    assert_eq!(c.num_zombies, 65_530);
    assert_eq!(c.speed, 655_700);
    assert_eq!(c.zombies.len(), 65_530);
}

#[test]
fn step_replenishes_an_empty_wave_first() {
    let mut h = Herpooles::new();
    let mut c = Controller::new(vec![]);
    step(&arena(), &mut h, &PressedKeys::default(), &mut c);
    assert_eq!(c.level, 2);
    assert_eq!(c.zombies.len(), 20);
    assert!(h.is_alive());
    // Every new enemy has already taken one step toward the player.
    for z in c.zombies.iter() {
        assert!(z.y > SPAWN_Y);
    }
}

#[test]
fn spawn_line_positions() {
    let z = Zombie::on_spawn_line(1_500_000);
    assert_eq!((z.x, z.y), (500_000, SPAWN_Y));
    assert!(z.walking);
    for _ in 0..100 {
        let z = Zombie::new();
        assert!(0 <= z.x && (z.x as u64) < SPAWN_SPAN);
        assert_eq!(z.y, SPAWN_Y);
        assert!(z.walking);
    }
}

#[test]
fn enemy_colours() {
    let mut z = zombie(0, 0);
    assert_eq!(z.color(), "grey");
    z.walking = false;
    assert_eq!(z.color(), "yellow");
}

#[test]
fn default_keys_are_released() {
    let k = PressedKeys::default();
    assert!(!k.right && !k.left && !k.up && !k.down);
}
