pub mod comm;
pub mod combinations;
pub mod conway;
pub mod flatmap;
pub mod itertools;
pub mod lru_cache;
pub mod min_queue;
pub mod mpsc;
pub mod prefix;
pub mod trust;
