use syslens_collect::all::{collect, Collector, Step};
use syslens_collect::order::sort_names;

fn run(outcomes: &[Result<(), String>]) -> (Vec<Collector>, Result<(), String>) {
    let mut visited = Vec::new();
    let mut completed = 0usize;
    let mut last: Result<(), String> = Ok(());
    loop {
        match collect(completed, last) {
            Step::Run(c) => {
                visited.push(c);
                last = outcomes[completed].clone();
                completed += 1;
            }
            Step::Done(r) => return (visited, r),
        }
    }
}

#[test]
fn full_run_visits_every_collector_in_order() {
    let (v, r) = run(&[Ok(()), Ok(()), Ok(()), Ok(()), Ok(()), Ok(()), Ok(())]);
    assert_eq!(
        v,
        vec![
            Collector::Cpu,
            Collector::Storage,
            Collector::Temps,
            Collector::Fans,
            Collector::Usb,
            Collector::Pci,
            Collector::Process,
        ]
    );
    assert_eq!(r, Ok(()));
}

#[test]
fn full_run_stops_at_first_error() {
    let (v, r) = run(&[Ok(()), Ok(()), Ok(()), Err("cannot read fans".to_string()), Err("later".to_string()), Ok(()), Ok(())]);
    assert_eq!(v, vec![Collector::Cpu, Collector::Storage, Collector::Temps, Collector::Fans]);
    assert_eq!(r, Err("cannot read fans".to_string()));
}

#[test]
fn full_run_stops_when_the_cpu_sample_fails() {
    let (v, r) = run(&[Err("empty /proc/stat".to_string()), Ok(()), Ok(()), Ok(()), Ok(()), Ok(()), Ok(())]);
    assert_eq!(v, vec![Collector::Cpu]);
    assert_eq!(r, Err("empty /proc/stat".to_string()));
}

#[test]
fn names_sort_lexicographically() {
    let names = vec!["hwmon10", "hwmon2", "hwmon1", "ä", "Z", ""].into_iter().map(String::from).collect();
    assert_eq!(sort_names(names), vec!["", "Z", "hwmon1", "hwmon10", "hwmon2", "ä"]);
}
