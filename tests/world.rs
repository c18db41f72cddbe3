use cellsim::cell::{wrap_move, Cell, Color, Food, Step};
use cellsim::food::FoodTree;
use cellsim::game::{game_init, get_food_collision, scatter, GameObjects, HUNGER_LIMIT};
use cellsim::tick::Outcome;
use rand::rngs::StdRng;
use rand::SeedableRng;

fn empty_world(columns: i32, rows: i32) -> GameObjects<()> {
    GameObjects { cells: Vec::new(), food_tree: FoodTree::new(), columns, rows }
}

fn agent(x: i32, y: i32, hunger: u32) -> Cell<()> {
    Cell {
        network: (),
        x,
        y,
        ticks_since_food: hunger,
        alive: true,
        color: Color { r: 1, g: 2, b: 3 },
    }
}

fn sorted_food(world: &GameObjects<()>) -> Vec<(i32, i32)> {
    let mut v = world.food_tree.positions();
    v.sort();
    v
}

fn score(steps: u32) -> f64 {
    if steps == 0 {
        0.0
    } else {
        1.0 / steps as f64
    }
}

#[test]
fn ray_scores_one_third_at_distance_three() {
    let mut tree = FoodTree::new();
    tree.insert(4, 1);
    let k = get_food_collision(1, 1, 1, 0, 10, 10, &tree);
    assert_eq!(k, 3);
    assert_eq!(score(k), 1.0 / 3.0);
}

#[test]
fn ray_stops_at_the_nearest_food() {
    let mut tree = FoodTree::new();
    tree.insert(5, 5);
    tree.insert(3, 3);
    assert_eq!(get_food_collision(1, 1, 1, 1, 10, 10, &tree), 2);
}

#[test]
fn ray_without_food_scores_zero() {
    let tree = FoodTree::new();
    assert_eq!(get_food_collision(0, 0, 1, 0, 20, 20, &tree), 0);
}

#[test]
fn ray_gives_up_after_nine_steps() {
    let mut tree = FoodTree::new();
    tree.insert(10, 0);
    assert_eq!(get_food_collision(0, 0, 1, 0, 20, 20, &tree), 0);
    tree.insert(9, 0);
    assert_eq!(get_food_collision(0, 0, 1, 0, 20, 20, &tree), 9);
}

#[test]
fn ray_ends_at_the_grid_edge() {
    let mut tree = FoodTree::new();
    tree.insert(0, 2);
    assert_eq!(get_food_collision(2, 2, 1, 0, 4, 4, &tree), 0);
    assert_eq!(get_food_collision(2, 2, -1, 0, 4, 4, &tree), 2);
}

#[test]
fn sense_duplicates_the_horizontal_rays() {
    let mut world = empty_world(10, 10);
    world.cells.push(agent(5, 5, 0));
    world.food_tree.insert(7, 5);
    world.food_tree.insert(4, 6);
    world.food_tree.insert(5, 8);
    let s = world.sense(0);
    assert_eq!(s, vec![2, 0, 2, 0, 0, 1, 0, 0]);
}

#[test]
fn wrap_back_from_zero() {
    assert_eq!(wrap_move(0, 8, Step::Back), 7);
    assert_eq!(wrap_move(3, 8, Step::Back), 2);
    assert_eq!(wrap_move(3, 8, Step::Stay), 3);
}

#[test]
fn forward_reaches_the_bound_before_wrapping() {
    assert_eq!(wrap_move(6, 8, Step::Forward), 7);
    assert_eq!(wrap_move(7, 8, Step::Forward), 8);
    assert_eq!(wrap_move(8, 8, Step::Forward), 0);
}

#[test]
fn agent_at_left_edge_wraps_in_one_tick() {
    let mut rng = StdRng::seed_from_u64(1);
    let mut world = empty_world(6, 6);
    world.cells.push(agent(0, 2, 0));
    let mut t = world.begin_tick();
    assert_eq!(world.step_cell(&mut t, Step::Back, Step::Stay, &mut rng), Outcome::Moved);
    world.finish_tick(t);
    assert_eq!(world.cells.len(), 1);
    assert_eq!(world.cells[0].x, 5);
    assert_eq!(world.cells[0].y, 2);
    assert_eq!(world.cells[0].ticks_since_food, 1);
}

#[test]
fn eating_spawns_offspring_at_the_old_position() {
    let mut rng = StdRng::seed_from_u64(2);
    let mut world = empty_world(4, 4);
    world.cells.push(agent(1, 1, 5));
    world.food_tree.insert(2, 1);
    let mut t = world.begin_tick();
    assert_eq!(world.step_cell(&mut t, Step::Forward, Step::Stay, &mut rng), Outcome::Ate);
    world.give_birth(&mut t, (), &mut rng);
    world.finish_tick(t);
    assert!(!world.food_tree.present_at(2, 1));
    assert_eq!(world.food_tree.positions().len(), 0);
    assert_eq!(world.cells.len(), 2);
    assert_eq!((world.cells[0].x, world.cells[0].y), (2, 1));
    assert_eq!(world.cells[0].ticks_since_food, 0);
    assert_eq!((world.cells[1].x, world.cells[1].y), (1, 1));
    assert!(world.cells[1].alive);
    assert_eq!(world.cells[1].ticks_since_food, 0);
    assert_eq!(world.cells[1].color, world.cells[0].color);
}

#[test]
fn eating_removes_one_of_two_markers() {
    let mut rng = StdRng::seed_from_u64(3);
    let mut world = empty_world(4, 4);
    world.cells.push(agent(1, 1, 0));
    world.food_tree.insert(1, 2);
    world.food_tree.insert(1, 2);
    let mut t = world.begin_tick();
    assert_eq!(world.step_cell(&mut t, Step::Stay, Step::Forward, &mut rng), Outcome::Ate);
    world.give_birth(&mut t, (), &mut rng);
    world.finish_tick(t);
    assert_eq!(sorted_food(&world), vec![(1, 2)]);
}

#[test]
fn starving_agent_is_removed_and_food_appears() {
    let mut rng = StdRng::seed_from_u64(4);
    let mut world = empty_world(5, 7);
    world.cells.push(agent(2, 2, HUNGER_LIMIT));
    let mut t = world.begin_tick();
    assert_eq!(world.step_cell(&mut t, Step::Stay, Step::Stay, &mut rng), Outcome::Starved);
    assert_eq!(world.cells[0].ticks_since_food, HUNGER_LIMIT + 1);
    world.finish_tick(t);
    assert_eq!(world.cells.len(), 0);
    let food = world.food_tree.positions();
    assert_eq!(food.len(), 1);
    assert!(0 <= food[0].0 && food[0].0 < 5);
    assert!(0 <= food[0].1 && food[0].1 < 7);
}

#[test]
fn hunger_below_the_limit_survives() {
    let mut rng = StdRng::seed_from_u64(5);
    let mut world = empty_world(5, 5);
    world.cells.push(agent(2, 2, HUNGER_LIMIT - 1));
    let mut t = world.begin_tick();
    assert_eq!(world.step_cell(&mut t, Step::Stay, Step::Stay, &mut rng), Outcome::Moved);
    world.finish_tick(t);
    assert_eq!(world.cells.len(), 1);
    assert_eq!(world.cells[0].ticks_since_food, HUNGER_LIMIT);
    assert_eq!(world.food_tree.positions().len(), 0);
}

#[test]
fn removals_keep_the_order_of_the_rest() {
    let mut rng = StdRng::seed_from_u64(6);
    let mut world = empty_world(9, 9);
    world.cells.push(agent(0, 0, HUNGER_LIMIT));
    world.cells.push(agent(1, 0, 0));
    world.cells.push(agent(2, 0, HUNGER_LIMIT));
    world.cells.push(agent(3, 0, HUNGER_LIMIT));
    world.cells.push(agent(4, 0, 0));
    let mut t = world.begin_tick();
    for _ in 0..5 {
        world.step_cell(&mut t, Step::Stay, Step::Stay, &mut rng);
    }
    world.finish_tick(t);
    let xs: Vec<i32> = world.cells.iter().map(|c| c.x).collect();
    assert_eq!(xs, vec![1, 4]);
    assert_eq!(world.food_tree.positions().len(), 3);
}

#[test]
fn offspring_are_appended_last_born_first() {
    let mut rng = StdRng::seed_from_u64(7);
    let mut world = empty_world(8, 8);
    world.cells.push(agent(1, 1, 0));
    world.cells.push(agent(5, 5, 0));
    world.food_tree.insert(2, 1);
    world.food_tree.insert(6, 5);
    let mut t = world.begin_tick();
    assert_eq!(world.step_cell(&mut t, Step::Forward, Step::Stay, &mut rng), Outcome::Ate);
    world.give_birth(&mut t, (), &mut rng);
    assert_eq!(world.step_cell(&mut t, Step::Forward, Step::Stay, &mut rng), Outcome::Ate);
    world.give_birth(&mut t, (), &mut rng);
    world.finish_tick(t);
    let pos: Vec<(i32, i32)> = world.cells.iter().map(|c| (c.x, c.y)).collect();
    assert_eq!(pos, vec![(2, 1), (6, 5), (5, 5), (1, 1)]);
}

#[test]
fn dead_agents_are_skipped() {
    let mut rng = StdRng::seed_from_u64(8);
    let mut world = empty_world(4, 4);
    let mut c = agent(1, 1, 3);
    c.alive = false;
    world.cells.push(c);
    let mut t = world.begin_tick();
    assert_eq!(world.step_cell(&mut t, Step::Forward, Step::Forward, &mut rng), Outcome::Skipped);
    world.finish_tick(t);
    assert_eq!((world.cells[0].x, world.cells[0].y, world.cells[0].ticks_since_food), (1, 1, 3));
}

#[test]
fn inherit_is_alive_fed_and_placed_by_argument() {
    let mut rng = StdRng::seed_from_u64(9);
    let mut parent = agent(3, 3, 7);
    parent.alive = false;
    let child = Cell::inherit_from(&parent, 0, 2, (), &mut rng);
    assert!(child.alive);
    assert_eq!(child.ticks_since_food, 0);
    assert_eq!((child.x, child.y), (0, 2));
    assert_eq!(child.color, parent.color);
}

#[test]
fn new_cell_takes_its_arguments() {
    let mut rng = StdRng::seed_from_u64(10);
    let c = Cell::new(4, 5, true, 17u8, &mut rng);
    assert_eq!((c.x, c.y, c.alive, c.ticks_since_food, c.network), (4, 5, true, 0, 17u8));
    assert!(c.color.r < 255 && c.color.g < 255 && c.color.b < 255);
    let f = Food::new(2, 9);
    assert_eq!((f.x, f.y), (2, 9));
}

#[test]
fn remove_at_an_empty_point_does_nothing() {
    let mut tree = FoodTree::new();
    tree.insert(1, 1);
    tree.remove_one_at(2, 2);
    assert_eq!(tree.positions(), vec![(1, 1)]);
    assert!(tree.present_at(1, 1));
    assert!(!tree.present_at(2, 2));
}

#[test]
fn init_places_agents_and_food_apart() {
    let mut rng = StdRng::seed_from_u64(11);
    let (world, agents): (GameObjects<()>, Vec<(i32, i32)>) = game_init(20, 15, &mut rng);
    assert_eq!((world.columns, world.rows), (20, 15));
    assert!(world.cells.is_empty());
    let food = sorted_food(&world);
    for w in food.windows(2) {
        assert!(w[0] != w[1]);
    }
    for p in food.iter().chain(agents.iter()) {
        assert!(0 <= p.0 && p.0 < 20 && 0 <= p.1 && p.1 < 15);
    }
    for a in agents.iter() {
        assert!(!world.food_tree.present_at(a.0, a.1));
    }
    assert!(!agents.is_empty());
    assert!(!food.is_empty());
}

fn run(seed: u64, ticks: usize) -> (Vec<(i32, i32, u32)>, Vec<(i32, i32)>) {
    let mut rng = StdRng::seed_from_u64(seed);
    let (mut world, agents): (GameObjects<()>, Vec<(i32, i32)>) = game_init(16, 16, &mut rng);
    for (x, y) in agents {
        world.add_cell(Cell::new(x, y, true, (), &mut rng));
    }
    for _ in 0..ticks {
        let mut t = world.begin_tick();
        for i in 0..world.cells.len() {
            let s = world.sense(i);
            let mx = if s[0] > 0 { Step::Forward } else if s[1] > 0 { Step::Back } else { Step::Stay };
            let my = if s[4] > 0 { Step::Forward } else if s[6] > 0 { Step::Back } else { Step::Forward };
            if world.step_cell(&mut t, mx, my, &mut rng) == Outcome::Ate {
                world.give_birth(&mut t, (), &mut rng);
            }
        }
        world.finish_tick(t);
    }
    let cells = world.cells.iter().map(|c| (c.x, c.y, c.ticks_since_food)).collect();
    (cells, sorted_food(&world))
}

#[test]
fn same_seed_gives_same_world() {
    let a = run(42, 25);
    let b = run(42, 25);
    assert_eq!(a, b);
}

#[test]
fn scatter_places_by_rolls() {
    let rolls: Vec<u32> = vec![10, 500, 950, 149, 900, 899];
    let (world, agents): (GameObjects<()>, Vec<(i32, i32)>) = scatter(2, 3, &rolls);
    assert_eq!((world.columns, world.rows), (2, 3));
    assert!(world.cells.is_empty());
    assert_eq!(agents, vec![(0, 0), (1, 0)]);
    assert_eq!(sorted_food(&world), vec![(0, 2), (1, 1)]);
}

#[test]
fn scatter_with_all_low_rolls_places_only_agents() {
    let rolls: Vec<u32> = vec![0; 4];
    let (world, agents): (GameObjects<()>, Vec<(i32, i32)>) = scatter(2, 2, &rolls);
    assert_eq!(agents, vec![(0, 0), (0, 1), (1, 0), (1, 1)]);
    assert!(sorted_food(&world).is_empty());
}

#[test]
fn scatter_with_same_rolls_gives_same_world() {
    let rolls: Vec<u32> = (0..35u32).map(|i| (i * 37) % 1000).collect();
    let (w1, a1): (GameObjects<()>, Vec<(i32, i32)>) = scatter(5, 7, &rolls);
    let (w2, a2): (GameObjects<()>, Vec<(i32, i32)>) = scatter(5, 7, &rolls);
    assert_eq!(a1, a2);
    assert_eq!(sorted_food(&w1), sorted_food(&w2));
}

#[test]
fn same_seed_gives_same_initial_world() {
    let mut r1 = StdRng::seed_from_u64(99);
    let mut r2 = StdRng::seed_from_u64(99);
    let (w1, a1): (GameObjects<()>, Vec<(i32, i32)>) = game_init(12, 9, &mut r1);
    let (w2, a2): (GameObjects<()>, Vec<(i32, i32)>) = game_init(12, 9, &mut r2);
    assert_eq!(a1, a2);
    assert_eq!(sorted_food(&w1), sorted_food(&w2));
}
