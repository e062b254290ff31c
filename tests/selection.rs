use labhosts::{select_minimum, HostRecord, Load, SelectError};

fn host(name: &str, available: bool, mantissa: u128, scale: usize) -> HostRecord {
    HostRecord {
        name: name.to_string(),
        available,
        uptime: "1+00:00,0".to_string(),
        users: 1,
        load: Load { mantissa, scale },
    }
}

#[test]
fn selects_lowest_load() {
    let hosts = vec![host("x", true, 32, 1), host("y", true, 11, 1), host("z", true, 50, 1)];
    let best = select_minimum(&hosts).unwrap();
    assert_eq!(best.name, "y");
    assert_eq!(best.load, Load { mantissa: 11, scale: 1 });
}

#[test]
fn tie_goes_to_earliest_record() {
    let hosts = vec![host("a", true, 20, 1), host("b", true, 20, 1)];
    assert_eq!(select_minimum(&hosts).unwrap().name, "a");
}

#[test]
fn tie_by_value_goes_to_earliest_record() {
    let hosts = vec![host("c", true, 3, 0), host("a", true, 2, 0), host("b", true, 200, 2)];
    assert_eq!(select_minimum(&hosts).unwrap().name, "a");
    let hosts = vec![host("b", true, 200, 2), host("a", true, 2, 0)];
    assert_eq!(select_minimum(&hosts).unwrap().name, "b");
}

#[test]
fn empty_input_gives_no_hosts_available() {
    let hosts: Vec<HostRecord> = vec![];
    assert_eq!(select_minimum(&hosts), Err(SelectError::NoHostsAvailable));
}

#[test]
fn minimum_load_is_the_same_for_every_order() {
    let base = vec![host("x", true, 32, 1), host("y", true, 11, 1), host("z", true, 5, 0)];
    let orders: [[usize; 3]; 6] = [[0, 1, 2], [0, 2, 1], [1, 0, 2], [1, 2, 0], [2, 0, 1], [2, 1, 0]];
    for order in orders.iter() {
        let hosts: Vec<HostRecord> = order.iter().map(|&i| base[i].clone()).collect();
        let best = select_minimum(&hosts).unwrap();
        assert_eq!(best.load, Load { mantissa: 11, scale: 1 });
        assert_eq!(best.name, "y");
    }
}

#[test]
fn unavailable_host_can_be_selected() {
    let hosts = vec![host("up-host", true, 9, 1), host("down-host", false, 1, 1)];
    let best = select_minimum(&hosts).unwrap();
    assert_eq!(best.name, "down-host");
    assert!(!best.available);
}

#[test]
fn selection_leaves_input_unchanged() {
    let hosts = vec![host("x", true, 32, 1), host("y", true, 11, 1)];
    let before = hosts.clone();
    let _ = select_minimum(&hosts);
    assert_eq!(hosts, before);
}

#[test]
fn single_record_is_selected() {
    let hosts = vec![host("only", false, 0, 0)];
    assert_eq!(select_minimum(&hosts).unwrap(), host("only", false, 0, 0));
}
