use tpt_math::graph::{astar, max_flow, FlowNetwork, GraphError};
use tpt_math::scalar::Scalar;

/// An `f64` as a library scalar.
#[derive(Clone, Copy, Debug, PartialEq)]
struct F(f64);

impl Scalar for F {
    fn zero() -> F {
        F(0.0)
    }
    fn one() -> F {
        F(1.0)
    }
    fn from_int(n: i64) -> F {
        F(n as f64)
    }
    fn from_u64(n: u64) -> F {
        F(n as f64)
    }
    fn plus(self, rhs: F) -> F {
        F(self.0 + rhs.0)
    }
    fn minus(self, rhs: F) -> F {
        F(self.0 - rhs.0)
    }
    fn times(self, rhs: F) -> F {
        F(self.0 * rhs.0)
    }
    fn divide(self, rhs: F) -> F {
        F(self.0 / rhs.0)
    }
    fn negate(self) -> F {
        F(-self.0)
    }
    fn abs(self) -> F {
        F(self.0.abs())
    }
    fn sqrt(self) -> F {
        F(self.0.sqrt())
    }
    fn sin(self) -> F {
        F(self.0.sin())
    }
    fn cos(self) -> F {
        F(self.0.cos())
    }
    fn tan(self) -> F {
        F(self.0.tan())
    }
    fn acos(self) -> F {
        F(self.0.acos())
    }
    fn atan2(self, other: F) -> F {
        F(self.0.atan2(other.0))
    }
    fn exp(self) -> F {
        F(self.0.exp())
    }
    fn ln(self) -> F {
        F(self.0.ln())
    }
    fn lt(self, rhs: F) -> bool {
        self.0 < rhs.0
    }
    fn le(self, rhs: F) -> bool {
        self.0 <= rhs.0
    }
    fn eq(self, rhs: F) -> bool {
        self.0 == rhs.0
    }
    fn is_finite(self) -> bool {
        self.0.is_finite()
    }
    fn min(self, rhs: F) -> F {
        F(self.0.min(rhs.0))
    }
    fn max(self, rhs: F) -> F {
        F(self.0.max(rhs.0))
    }
    fn powi(self, n: i32) -> F {
        F(self.0.powi(n))
    }
    fn powf(self, p: F) -> F {
        F(self.0.powf(p.0))
    }
    fn floor(self) -> F {
        F(self.0.floor())
    }
    fn infinity() -> F {
        F(f64::INFINITY)
    }
    fn pi() -> F {
        F(std::f64::consts::PI)
    }
    fn e() -> F {
        F(std::f64::consts::E)
    }
    // The specification functions mirror the operations above.
    fn zero_spec() -> F {
        F::zero()
    }
    fn one_spec() -> F {
        F::one()
    }
    fn from_int_spec(n: i64) -> F {
        F::from_int(n)
    }
    fn from_u64_spec(n: u64) -> F {
        F::from_u64(n)
    }
    fn plus_spec(self, rhs: F) -> F {
        self.plus(rhs)
    }
    fn minus_spec(self, rhs: F) -> F {
        self.minus(rhs)
    }
    fn times_spec(self, rhs: F) -> F {
        self.times(rhs)
    }
    fn divide_spec(self, rhs: F) -> F {
        self.divide(rhs)
    }
    fn negate_spec(self) -> F {
        self.negate()
    }
    fn abs_spec(self) -> F {
        Scalar::abs(self)
    }
    fn sqrt_spec(self) -> F {
        Scalar::sqrt(self)
    }
    fn sin_spec(self) -> F {
        Scalar::sin(self)
    }
    fn cos_spec(self) -> F {
        Scalar::cos(self)
    }
    fn tan_spec(self) -> F {
        Scalar::tan(self)
    }
    fn acos_spec(self) -> F {
        Scalar::acos(self)
    }
    fn atan2_spec(self, other: F) -> F {
        Scalar::atan2(self, other)
    }
    fn exp_spec(self) -> F {
        Scalar::exp(self)
    }
    fn ln_spec(self) -> F {
        Scalar::ln(self)
    }
    fn lt_spec(self, rhs: F) -> bool {
        Scalar::lt(self, rhs)
    }
    fn le_spec(self, rhs: F) -> bool {
        Scalar::le(self, rhs)
    }
    fn eq_spec(self, rhs: F) -> bool {
        Scalar::eq(self, rhs)
    }
    fn is_finite_spec(self) -> bool {
        Scalar::is_finite(self)
    }
    fn min_spec(self, rhs: F) -> F {
        Scalar::min(self, rhs)
    }
    fn max_spec(self, rhs: F) -> F {
        Scalar::max(self, rhs)
    }
    fn powi_spec(self, n: i32) -> F {
        Scalar::powi(self, n)
    }
    fn powf_spec(self, p: F) -> F {
        Scalar::powf(self, p)
    }
    fn floor_spec(self) -> F {
        Scalar::floor(self)
    }
    fn infinity_spec() -> F {
        <F as Scalar>::infinity()
    }
    fn pi_spec() -> F {
        <F as Scalar>::pi()
    }
    fn e_spec() -> F {
        <F as Scalar>::e()
    }
}

fn network(nodes: usize, edges: &[(usize, usize, f64)]) -> FlowNetwork<F> {
    let mut g = FlowNetwork::new();
    for _ in 0..nodes {
        g.add_node();
    }
    for &(u, v, c) in edges {
        g.add_edge(u, v, F(c));
    }
    g
}

#[test]
fn max_flow_classic_network() {
    // s -> a (3), s -> b (2), a -> b (1), a -> t (2), b -> t (3): max flow 5.
    let g = network(4, &[(0, 1, 3.0), (0, 2, 2.0), (1, 2, 1.0), (1, 3, 2.0), (2, 3, 3.0)]);
    let mf = max_flow(&g, 0, 3).unwrap();
    assert!((mf.value.0 - 5.0).abs() < 1e-9, "got {}", mf.value.0);
}

#[test]
fn max_flow_zero_when_no_path() {
    let g = network(3, &[]);
    let mf = max_flow(&g, 0, 1).unwrap();
    assert_eq!(mf.value.0, 0.0);
}

#[test]
fn max_flow_bottleneck() {
    // s -> a (3), s -> b (2); a -> t (3), b -> t (1): max flow 4.
    let g = network(4, &[(0, 1, 3.0), (0, 2, 2.0), (1, 3, 3.0), (2, 3, 1.0)]);
    let mf = max_flow(&g, 0, 3).unwrap();
    assert!((mf.value.0 - 4.0).abs() < 1e-9, "got {}", mf.value.0);
    assert!((mf.edge_flow[0].0 - 3.0).abs() < 1e-9, "s->a flow = {}", mf.edge_flow[0].0);
    assert!((mf.edge_flow[1].0 - 1.0).abs() < 1e-9, "s->b flow = {}", mf.edge_flow[1].0);
    assert!((mf.edge_flow[2].0 - 3.0).abs() < 1e-9, "a->t flow = {}", mf.edge_flow[2].0);
    assert!((mf.edge_flow[3].0 - 1.0).abs() < 1e-9, "b->t flow = {}", mf.edge_flow[3].0);
}

#[test]
fn max_flow_rejects_equal_endpoints() {
    let g = network(1, &[]);
    assert!(matches!(max_flow(&g, 0, 0), Err(GraphError::SourceEqualsSink)));
}

#[test]
fn max_flow_conserves_and_respects_capacities() {
    // A network where the flow must be rerouted through the reverse residual edge.
    let edges = [(0, 1, 1.0), (0, 2, 1.0), (1, 2, 1.0), (1, 3, 1.0), (2, 3, 1.0)];
    let g = network(4, &edges);
    let mf = max_flow(&g, 0, 3).unwrap();
    assert_eq!(mf.value.0, 2.0);
    assert_eq!(mf.edge_flow.len(), edges.len());
    let mut net = [0.0_f64; 4];
    for (e, &(u, v, c)) in edges.iter().enumerate() {
        let f = mf.edge_flow[e].0;
        assert!((-1e-12..=c + 1e-12).contains(&f), "edge {e} flow {f} outside [0, {c}]");
        net[u] -= f;
        net[v] += f;
    }
    assert!((net[0] + 2.0).abs() < 1e-12 && (net[3] - 2.0).abs() < 1e-12);
    assert!(net[1].abs() < 1e-12 && net[2].abs() < 1e-12);
}

#[test]
fn network_building_counts() {
    let mut g: FlowNetwork<F> = FlowNetwork::new();
    assert_eq!(g.add_node(), 0);
    assert_eq!(g.add_node(), 1);
    assert_eq!(g.add_edge(0, 1, F(2.5)), 0);
    assert_eq!(g.node_count(), 2);
    assert_eq!(g.edge_count(), 1);
    assert_eq!(g.edges()[0], (0, 1, F(2.5)));
    // Parallel edges add up; a negative capacity carries nothing.
    let h = network(2, &[(0, 1, 1.0), (0, 1, 2.0), (0, 1, -1.0)]);
    let mf = max_flow(&h, 0, 1).unwrap();
    assert_eq!(mf.value.0, 3.0);
    assert_eq!(mf.edge_flow[2].0, 0.0);
}

#[test]
fn astar_finds_path() {
    // a -> b (1), b -> c (1), a -> c (1).
    let g = network(3, &[(0, 1, 1.0), (1, 2, 1.0), (0, 2, 1.0)]);
    let res = astar(&g, 0, |n| n == 2, |_| F(0.0));
    assert!(res.is_some());
    let (cost, path) = res.unwrap();
    assert!((cost.0 - 1.0).abs() < 1e-12);
    assert_eq!(path[0], 0);
    assert_eq!(path[path.len() - 1], 2);
}

#[test]
fn astar_paths_costs_and_misses() {
    // 0 -> 1 (1), 1 -> 2 (1), 0 -> 2 (5), 2 -> 3 (1): the cheaper route goes through 1.
    let g = network(4, &[(0, 1, 1.0), (1, 2, 1.0), (0, 2, 5.0), (2, 3, 1.0)]);
    let (cost, path) = astar(&g, 0, |n| n == 3, |_| F(0.0)).unwrap();
    assert_eq!(cost.0, 3.0);
    assert_eq!(path, vec![0, 1, 2, 3]);
    // The start itself is a goal.
    let (cost, path) = astar(&g, 2, |n| n == 2, |_| F(0.0)).unwrap();
    assert_eq!((cost.0, path), (0.0, vec![2]));
    // No edge leads back to 0.
    assert!(astar(&g, 3, |n| n == 0, |_| F(0.0)).is_none());
    // A start outside the network is a path of its own only when it is a goal.
    assert_eq!(astar(&g, 9, |n| n == 9, |_| F(0.0)).map(|(c, p)| (c.0, p)), Some((0.0, vec![9])));
    assert!(astar(&g, 9, |n| n == 0, |_| F(0.0)).is_none());
    // An infinite estimate everywhere leaves no node to expand.
    assert!(astar(&g, 0, |n| n == 3, |_| F(f64::INFINITY)).is_none());
}
