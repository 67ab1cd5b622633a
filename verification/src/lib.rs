pub mod args_rets;
pub mod lossy_convert;
pub mod main_loop;
pub mod pool_manager;
pub mod queue;
pub mod rng;
pub mod shared_rate_resource;
pub mod simulation;
pub mod status;
