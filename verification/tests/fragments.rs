use crystal_surface_generator::connectivity::find_fragments;

#[test]
fn three_fragments_partition_vertices() {
    // 0-1, 1-2 bonded; 3 and 4 isolated
    let adj: Vec<Vec<usize>> = vec![vec![1], vec![0, 2], vec![1], vec![], vec![]];
    let frags = find_fragments(5, &adj);
    assert_eq!(frags.len(), 3);
    assert_eq!(frags[0].indices, vec![0, 1, 2]);
    assert_eq!(frags[1].indices, vec![3]);
    assert_eq!(frags[2].indices, vec![4]);
    assert_eq!(frags[0].anchor, 0);
    assert_eq!(frags[0].steps, vec![(0, 1), (1, 2)]);
    assert!(frags[1].steps.is_empty());
}

#[test]
fn wrapped_atoms_sort_ascending() {
    // one ring 4-2-0, listed out of order
    let adj: Vec<Vec<usize>> = vec![vec![2, 4], vec![3], vec![0, 4], vec![1], vec![0, 2]];
    let frags = find_fragments(5, &adj);
    assert_eq!(frags.len(), 2);
    assert_eq!(frags[0].indices, vec![0, 2, 4]);
    assert_eq!(frags[1].indices, vec![1, 3]);
    // no vertex in two fragments and every vertex somewhere
    let mut seen = vec![false; 5];
    for f in &frags {
        for &i in &f.indices {
            assert!(!seen[i]);
            seen[i] = true;
        }
    }
    assert!(seen.iter().all(|&b| b));
}

fn min_image(cell: f64, a: [f64; 3], b: [f64; 3]) -> [f64; 3] {
    let mut d = [b[0] - a[0], b[1] - a[1], b[2] - a[2]];
    for x in d.iter_mut() {
        *x -= x.round();
        *x *= cell;
    }
    d
}

fn norm(v: [f64; 3]) -> f64 {
    (v[0] * v[0] + v[1] * v[1] + v[2] * v[2]).sqrt()
}

#[test]
fn wrapped_water_unwraps_into_one_molecule() {
    // O near the origin, two H wrapped across the cell boundary of a
    // 5 angstrom cubic cell; bond cutoff 1.2 angstrom
    let cell = 5.0;
    let frac: [[f64; 3]; 3] = [
        [0.02, 0.02, 0.02],
        [0.99, 0.02, 0.02],
        [0.02, 0.99, 0.02],
    ];
    let cutoff = 1.2;
    let n = 3;
    let mut adj: Vec<Vec<usize>> = vec![vec![]; n];
    for i in 0..n {
        for j in (i + 1)..n {
            if norm(min_image(cell, frac[i], frac[j])) < cutoff {
                adj[i].push(j);
                adj[j].push(i);
            }
        }
    }
    let frags = find_fragments(n, &adj);
    assert_eq!(frags.len(), 1);
    assert_eq!(frags[0].indices, vec![0, 1, 2]);

    // unwrap along the spanning steps as the molecule finder does
    let mut pos = vec![[0.0f64; 3]; n];
    let anchor = frags[0].anchor;
    pos[anchor] = [frac[anchor][0] * cell, frac[anchor][1] * cell, frac[anchor][2] * cell];
    for &(from, to) in &frags[0].steps {
        let d = min_image(cell, frac[from], frac[to]);
        pos[to] = [pos[from][0] + d[0], pos[from][1] + d[1], pos[from][2] + d[2]];
    }
    for i in 0..n {
        for j in (i + 1)..n {
            let d = [
                pos[i][0] - pos[j][0],
                pos[i][1] - pos[j][1],
                pos[i][2] - pos[j][2],
            ];
            assert!(norm(d) < cutoff, "pair {} {} too far", i, j);
        }
    }
    // the bonded pairs are within the cutoff with no wrapping
    for &(from, to) in &frags[0].steps {
        let d = [
            pos[from][0] - pos[to][0],
            pos[from][1] - pos[to][1],
            pos[from][2] - pos[to][2],
        ];
        assert!(norm(d) < cutoff);
    }
    // canonical shift puts the centre of mass inside the cell
    let mut com = [0.0f64; 3];
    for p in &pos {
        for k in 0..3 {
            com[k] += p[k] / n as f64;
        }
    }
    let shift: Vec<f64> = com.iter().map(|c| -(c / cell).floor() * cell).collect();
    let shifted_com_frac: Vec<f64> = (0..3).map(|k| (com[k] + shift[k]) / cell).collect();
    for k in 0..3 {
        assert!((0.0..1.0).contains(&shifted_com_frac[k]));
    }
}

#[test]
fn empty_graph_has_no_fragments() {
    let adj: Vec<Vec<usize>> = vec![];
    let frags = find_fragments(0, &adj);
    assert!(frags.is_empty());
}
