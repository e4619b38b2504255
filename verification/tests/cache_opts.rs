use osm2rdf::cache::CoordCache;
use osm2rdf::{parse_outdir, Command, Opt};

#[test]
fn unset_ids_read_as_zero_pair() {
    let cache = CoordCache::new(16);
    assert_eq!(cache.get_lat_long(0), (0, 0));
    assert_eq!(cache.get_lat_long(12345), (0, 0));
}

#[test]
fn cache_grows_in_whole_pages() {
    let mut cache = CoordCache::new(4);
    let grown = cache.set_value_i32(5, 11, 22);
    assert_eq!(grown, Some((0, 8)));
    assert_eq!(cache.get_lat_long(5), (11, 22));
    // Entries of the grown pages that were never set read as zero.
    assert_eq!(cache.get_lat_long(6), (0, 0));
    // A second write inside the allocated range does not grow.
    let grown = cache.set_value_i32(2, 33, 44);
    assert_eq!(grown, None);
    assert_eq!(cache.get_lat_long(2), (33, 44));
    // Last writer wins.
    cache.set_value_i32(2, 55, 66);
    assert_eq!(cache.get_lat_long(2), (55, 66));
}

#[test]
fn output_directory_must_exist() {
    assert_eq!(parse_outdir(String::from("out"), true), Ok(String::from("out")));
    assert!(parse_outdir(String::from("missing"), false).is_err());
}

#[test]
fn options_carry_the_parse_command() {
    let opt = Opt {
        verbose: false,
        cache: String::from("nodes.cache"),
        cmd: Command::Parse {
            max_file_size: 100,
            workers: Some(4),
            input_file: String::from("planet.osm.pbf"),
            output_dir: String::from("out"),
        },
    };
    match opt.cmd {
        Command::Parse { max_file_size, workers, input_file, output_dir } => {
            assert_eq!(max_file_size, 100);
            assert_eq!(workers, Some(4));
            assert_eq!(input_file, "planet.osm.pbf");
            assert_eq!(output_dir, "out");
        }
    }
}
