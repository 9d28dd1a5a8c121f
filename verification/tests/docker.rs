use detox_mac::task::docker::{
    availability, parse_size, planned_commands, prune, prune_args, reclaimable, reclaimed_space,
};

#[test]
fn parses_docker_sizes() {
    assert_eq!(parse_size("0B"), Some(0));
    assert_eq!(parse_size("972.5MB"), Some(972_500_000));
    assert_eq!(parse_size("1.093GB"), Some(1_093_000_000));
    assert_eq!(parse_size("2GiB"), Some(2 * 1024 * 1024 * 1024));
    assert_eq!(parse_size("1.2GB (57%)"), Some(1_200_000_000));
    assert_eq!(parse_size("soon"), None);
}

#[test]
fn reads_reclaimed_space_from_prune_output() {
    let output = "Deleted Containers:\nabc123\n\nTotal reclaimed space: 1.5GB";
    assert_eq!(reclaimed_space(output), Some(1_500_000_000));
    assert_eq!(reclaimed_space("nothing to delete"), None);
}

#[test]
fn volumes_are_never_pruned() {
    assert!(!prune_args().iter().any(|args| args.iter().any(|a| a == "volume")));
}

#[test]
fn planned_commands_are_the_four_prunes() {
    assert_eq!(
        planned_commands(),
        vec![
            "docker container prune -f".to_string(),
            "docker image prune -a -f".to_string(),
            "docker builder prune -a -f".to_string(),
            "docker network prune -f".to_string(),
        ]
    );
}

#[test]
fn availability_names_what_is_missing() {
    assert_eq!(availability(false, false), Err("Docker is not installed".to_string()));
    assert_eq!(availability(true, false), Err("the Docker daemon is not running".to_string()));
    assert_eq!(availability(true, true), Ok(()));
}

#[test]
fn reclaimable_space_skips_volumes_and_noise() {
    let out = "{\"Type\":\"Images\",\"Reclaimable\":\"1.2GB (57%)\"}\n{\"Type\":\"Local Volumes\",\"Reclaimable\":\"5GB\"}\nnot json\n{\"Type\":\"Build Cache\",\"Reclaimable\":\"0B\"}\n{\"Type\":\"Containers\",\"Reclaimable\":\"512MB\"}";
    let r = reclaimable(out);
    assert_eq!(r.bytes, 1_200_000_000 + 512_000_000);
    assert_eq!(r.details, vec!["Images : 1.12 Go".to_string(), "Containers : 488.3 Mo".to_string()]);
}

#[test]
fn prune_reports_each_command() {
    let outcomes = vec![
        Ok("Total reclaimed space: 1GB".to_string()),
        Err("boom".to_string()),
        Ok("nothing".to_string()),
        Ok("Total reclaimed space: 0B".to_string()),
    ];
    let p = prune(outcomes);
    assert_eq!(p.freed, 1_000_000_000);
    assert_eq!(p.messages[0], "docker container prune — 953.7 Mo");
    assert_eq!(p.messages[1], "docker image prune — failed: boom");
    assert_eq!(p.messages[2], "docker builder prune — 0 o");
}
