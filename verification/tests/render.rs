use disquiet::accelerator::kd::KdTree;
use disquiet::accelerator::linear::ShapeVec;
use disquiet::accelerator::Accelerator;
use disquiet::camera::Camera;
use disquiet::color::Color3;
use disquiet::integrator::path_tracer::PathTracer;
use disquiet::integrator::primary_ray::PrimaryRayIntegrator;
use disquiet::integrator::Integrator;
use disquiet::material::{Lambertian, LightEmitter, Material};
use disquiet::math::FP_ONE;
use disquiet::queue::{fill_queue, queue_new, queue_steal};
use disquiet::random::RandomGenerator;
use disquiet::renderer::{generate_tiles, render, RendererInput, TileInfo};
use disquiet::scene::Scene;
use disquiet::shape::{Plane, Shape, Sphere};
use disquiet::vector::{Ray, Vector3};

fn v(x: i64, y: i64, z: i64) -> Vector3 {
    Vector3::new(x * FP_ONE, y * FP_ONE, z * FP_ONE)
}

fn test_camera() -> Camera {
    Camera::look_at(v(0, 0, -10), v(0, 0, 0), v(0, 1, 0), FP_ONE, FP_ONE)
}

fn cluttered_scene() -> Scene {
    let mut scene = Scene::new(test_camera());
    let white = scene.add_material(Material::Lambertian(Lambertian {
        color: Color3::new(FP_ONE, FP_ONE, FP_ONE),
    }));
    let light = scene.add_material(Material::LightEmitter(LightEmitter {
        color: Color3::new(10 * FP_ONE, 10 * FP_ONE, 10 * FP_ONE),
    }));
    let centers = [
        (0, 0, 0),
        (3, 1, 2),
        (-3, -1, 4),
        (5, 5, 5),
        (-5, 2, -3),
        (1, -4, 6),
        (2, 2, -8),
        (-2, 3, 7),
        (4, -2, 1),
        (-4, -3, -2),
        (6, 0, 3),
        (0, 6, -1),
    ];
    for (i, (x, y, z)) in centers.iter().enumerate() {
        let material = if i % 3 == 0 { light } else { white };
        scene.add_shape(Shape::Sphere(Sphere { center: v(*x, *y, *z), radius: FP_ONE, material }));
    }
    scene.add_shape(Shape::Plane(Plane {
        point: v(0, -6, 0),
        normal: v(0, 1, 0),
        material: white,
    }));
    scene
}

#[test]
fn accelerators_agree() {
    let scene = cluttered_scene();
    let linear = ShapeVec::new(&scene);
    let tree = KdTree::new(&scene);
    let mut rng = RandomGenerator::for_stream(11, 0);
    let mut hits = 0;
    for i in 0..40 {
        for j in 0..40 {
            let dir = Vector3::new(
                (i - 20) * FP_ONE / 8,
                (j - 20) * FP_ONE / 8,
                FP_ONE,
            )
            .normalize();
            let ray = Ray { origin: v(0, 0, -10), direction: dir };
            let a = linear.trace(&ray);
            let b = tree.trace(&ray);
            assert_eq!(a, b);
            if a.is_some() {
                hits += 1;
            }
        }
    }
    assert!(hits > 0, "the sample rays never touched the scene");
    for _ in 0..400 {
        let dir = rng.unit_sphere();
        let origin = rng.unit_sphere();
        let ray = Ray { origin, direction: dir };
        assert_eq!(linear.trace(&ray), tree.trace(&ray));
    }
}

#[test]
fn tiles_partition_the_image() {
    for (w, h, ts) in [(64usize, 48usize, 16usize), (100, 37, 8), (5, 5, 7), (33, 1, 4)] {
        let tiles = generate_tiles(w, h, ts);
        let mut count = vec![0u32; w * h];
        for t in &tiles {
            assert!(t.x + t.width <= w && t.y + t.height <= h, "tile out of bounds");
            for dy in 0..t.height {
                for dx in 0..t.width {
                    count[(t.y + dy) * w + t.x + dx] += 1;
                }
            }
        }
        assert!(count.iter().all(|&c| c == 1), "{w}x{h}/{ts} not a partition");
    }
    assert_eq!(generate_tiles(0, 10, 4).len(), 0);
}

#[test]
fn bounce_zero_truncates_to_black() {
    let scene = cluttered_scene();
    let accel = Accelerator::Linear(ShapeVec::new(&scene));
    let mut pt = PathTracer::new(0);
    for i in 0..10 {
        let dir = Vector3::new(i * FP_ONE / 10 - FP_ONE / 2, 0, FP_ONE).normalize();
        let ray = Ray { origin: v(0, 0, -10), direction: dir };
        let out = pt.integrate(&scene, &ray, &accel);
        assert_eq!(out.color, Color3::new(0, 0, 0));
        assert_eq!(out.normal, Vector3::new(0, 0, 0));
    }
}

#[test]
fn flat_background_scenario() {
    let mut scene = Scene::new(test_camera());
    scene.world_color = Color3::new(13107, 13107, 13107);
    let accel = Accelerator::Linear(ShapeVec::new(&scene));
    let integrator = PrimaryRayIntegrator::new();
    for i in 0..5 {
        let ray = scene.camera.get_ray(i * FP_ONE / 5, FP_ONE / 2);
        let out = integrator.integrate(&scene, &ray, &accel);
        assert_eq!(out.color, Color3::new(13107, 13107, 13107));
        assert_eq!(out.normal, Vector3::new(-FP_ONE, -FP_ONE, -FP_ONE));
    }
}

#[test]
fn emissive_sphere_returns_emittance() {
    let mut scene = Scene::new(test_camera());
    let light = scene.add_material(Material::LightEmitter(LightEmitter {
        color: Color3::new(10 * FP_ONE, 9 * FP_ONE, 8 * FP_ONE),
    }));
    scene.add_shape(Shape::Sphere(Sphere { center: v(0, 0, 0), radius: 2 * FP_ONE, material: light }));
    let accel = Accelerator::Linear(ShapeVec::new(&scene));
    let mut pt = PathTracer::new(1);
    let ray = Ray { origin: v(0, 0, -10), direction: Vector3::new(0, 0, FP_ONE) };
    let out = pt.integrate(&scene, &ray, &accel);
    assert_eq!(out.color, Color3::new(10 * FP_ONE, 9 * FP_ONE, 8 * FP_ONE));
}

#[test]
fn sampled_radiance_stays_well_formed() {
    // The estimator divides by a sampled probability density. Densities at
    // or below zero must fall back to emitted light alone, so with
    // non-negative materials no channel can ever turn negative, however the
    // sampler lands.
    let scene = cluttered_scene();
    let accel = Accelerator::Kd(KdTree::new(&scene));
    let mut pt = PathTracer::new(4);
    let mut rng = RandomGenerator::for_stream(99, 0);
    for _ in 0..300 {
        let dir = rng.unit_sphere();
        let ray = Ray { origin: v(0, 0, -10), direction: dir };
        let out = pt.integrate(&scene, &ray, &accel);
        assert!(out.color.r >= 0 && out.color.g >= 0 && out.color.b >= 0, "negative radiance");
    }
}

fn small_input(seed: u64) -> RendererInput {
    RendererInput {
        sample_count: 4,
        width: 16,
        height: 12,
        tile_size: 5,
        thread_count: 1,
        seed,
    }
}

#[test]
fn renders_are_reproducible() {
    let scene = cluttered_scene();
    let accel = Accelerator::Kd(KdTree::new(&scene));
    let integrator = Integrator::Path(PathTracer::new(3));
    let img1 = render(integrator, &scene, &accel, &small_input(42));
    let integrator = Integrator::Path(PathTracer::new(3));
    let img2 = render(integrator, &scene, &accel, &small_input(42));
    assert_eq!(img1.into_bytes(), img2.into_bytes());
}

#[test]
fn seeds_change_the_noise() {
    let scene = cluttered_scene();
    let accel = Accelerator::Linear(ShapeVec::new(&scene));
    let img1 = render(Integrator::Path(PathTracer::new(3)), &scene, &accel, &small_input(1));
    let img2 = render(Integrator::Path(PathTracer::new(3)), &scene, &accel, &small_input(2));
    assert_ne!(img1.into_bytes(), img2.into_bytes());
}

#[test]
fn the_work_queue_serves_every_tile() {
    let tiles = generate_tiles(20, 20, 6);
    let mut q = queue_new();
    fill_queue(&mut q, &tiles);
    let mut seen: Vec<TileInfo> = Vec::new();
    while let Some(t) = queue_steal(&q) {
        seen.push(t);
    }
    assert_eq!(seen.len(), tiles.len());
    let key = |t: &TileInfo| (t.x, t.y, t.width, t.height);
    let mut a: Vec<_> = seen.iter().map(key).collect();
    let mut b: Vec<_> = tiles.iter().map(key).collect();
    a.sort();
    b.sort();
    assert_eq!(a, b);
}

#[test]
fn camera_rays_are_deterministic() {
    let cam = test_camera();
    let r1 = cam.get_ray(FP_ONE / 3, FP_ONE / 4);
    let r2 = cam.get_ray(FP_ONE / 3, FP_ONE / 4);
    assert_eq!(r1, r2);
    let r3 = cam.get_ray(2 * FP_ONE / 3, FP_ONE / 4);
    assert_ne!(r1.direction, r3.direction);
}
