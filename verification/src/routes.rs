//! The catalogue of authenticated endpoints: one logical operation name
//! for each, with its path and HTTP method, fixed at construction.

use vstd::prelude::*;

use crate::request::HttpMethod;

verus! {

/// One logical operation of the venue's private interface.
#[derive(Clone, Copy, PartialEq, Eq, Structural, Debug)]
pub enum Operation {
    WsAuth,
    UmAccountMode,
    UmAccounts,
    UmTransactionLogs,
    SpotAccountConfigs,
    SpotWsAuth,
    SpotAccounts,
    SpotTransactionLogs,
    SpotOrders,
    SpotOpenOrders,
    SpotUserTrades,
    SpotNewOrder,
    SpotAmendOrder,
    SpotCancelOrder,
    SpotBatchNewOrders,
    SpotBatchAmendOrders,
    SpotEnableCod,
    SpotMmpState,
    SpotUpdateMmpConfig,
    SpotResetMmp,
    LinearAccountConfigs,
    LinearPositions,
    LinearOrders,
    LinearOpenOrders,
    LinearUserTrades,
    LinearNewOrder,
    LinearAmendOrder,
    LinearCancelOrder,
    LinearBatchNewOrders,
    LinearBatchAmendOrders,
    LinearMmpState,
    LinearUpdateMmpConfig,
    LinearResetMmp,
}

/// The request path of an operation.
pub open spec fn route_path(op: Operation) -> Seq<char> {
    match op {
        Operation::WsAuth => "/v1/ws/auth"@,
        Operation::UmAccountMode => "/um/v1/account_mode"@,
        Operation::UmAccounts => "/um/v1/accounts"@,
        Operation::UmTransactionLogs => "/um/v1/transactions"@,
        Operation::SpotAccountConfigs => "/spot/v1/account_configs"@,
        Operation::SpotWsAuth => "/spot/v1/ws/auth"@,
        Operation::SpotAccounts => "/spot/v1/accounts"@,
        Operation::SpotTransactionLogs => "/spot/v1/transactions"@,
        Operation::SpotOrders => "/spot/v1/orders"@,
        Operation::SpotOpenOrders => "/spot/v1/open_orders"@,
        Operation::SpotUserTrades => "/spot/v1/user/trades"@,
        Operation::SpotNewOrder => "/spot/v1/orders"@,
        Operation::SpotAmendOrder => "/spot/v1/amend_orders"@,
        Operation::SpotCancelOrder => "/spot/v1/cancel_orders"@,
        Operation::SpotBatchNewOrders => "/spot/v1/batchorders"@,
        Operation::SpotBatchAmendOrders => "/spot/v1/amend_batchorders"@,
        Operation::SpotEnableCod => "/spot/v1/account_configs/cod"@,
        Operation::SpotMmpState => "/spot/v1/mmp_state"@,
        Operation::SpotUpdateMmpConfig => "/spot/v1/update_mmp_config"@,
        Operation::SpotResetMmp => "/spot/v1/reset_mmp"@,
        Operation::LinearAccountConfigs => "/linear/v1/account_configs"@,
        Operation::LinearPositions => "/linear/v1/positions"@,
        Operation::LinearOrders => "/linear/v1/orders"@,
        Operation::LinearOpenOrders => "/linear/v1/open_orders"@,
        Operation::LinearUserTrades => "/linear/v1/user/trades"@,
        Operation::LinearNewOrder => "/linear/v1/orders"@,
        Operation::LinearAmendOrder => "/linear/v1/amend_orders"@,
        Operation::LinearCancelOrder => "/linear/v1/cancel_orders"@,
        Operation::LinearBatchNewOrders => "/linear/v1/batchorders"@,
        Operation::LinearBatchAmendOrders => "/linear/v1/amend_batchorders"@,
        Operation::LinearMmpState => "/linear/v1/mmp_state"@,
        Operation::LinearUpdateMmpConfig => "/linear/v1/update_mmp_config"@,
        Operation::LinearResetMmp => "/linear/v1/reset_mmp"@,
    }
}

/// The HTTP method of an operation.
pub open spec fn route_method(op: Operation) -> HttpMethod {
    match op {
        Operation::WsAuth => HttpMethod::Get,
        Operation::UmAccountMode => HttpMethod::Get,
        Operation::UmAccounts => HttpMethod::Get,
        Operation::UmTransactionLogs => HttpMethod::Get,
        Operation::SpotAccountConfigs => HttpMethod::Get,
        Operation::SpotWsAuth => HttpMethod::Get,
        Operation::SpotAccounts => HttpMethod::Get,
        Operation::SpotTransactionLogs => HttpMethod::Get,
        Operation::SpotOrders => HttpMethod::Get,
        Operation::SpotOpenOrders => HttpMethod::Get,
        Operation::SpotUserTrades => HttpMethod::Get,
        Operation::SpotNewOrder => HttpMethod::Post,
        Operation::SpotAmendOrder => HttpMethod::Post,
        Operation::SpotCancelOrder => HttpMethod::Post,
        Operation::SpotBatchNewOrders => HttpMethod::Post,
        Operation::SpotBatchAmendOrders => HttpMethod::Post,
        Operation::SpotEnableCod => HttpMethod::Post,
        Operation::SpotMmpState => HttpMethod::Get,
        Operation::SpotUpdateMmpConfig => HttpMethod::Post,
        Operation::SpotResetMmp => HttpMethod::Post,
        Operation::LinearAccountConfigs => HttpMethod::Get,
        Operation::LinearPositions => HttpMethod::Get,
        Operation::LinearOrders => HttpMethod::Get,
        Operation::LinearOpenOrders => HttpMethod::Get,
        Operation::LinearUserTrades => HttpMethod::Get,
        Operation::LinearNewOrder => HttpMethod::Post,
        Operation::LinearAmendOrder => HttpMethod::Post,
        Operation::LinearCancelOrder => HttpMethod::Post,
        Operation::LinearBatchNewOrders => HttpMethod::Post,
        Operation::LinearBatchAmendOrders => HttpMethod::Post,
        Operation::LinearMmpState => HttpMethod::Get,
        Operation::LinearUpdateMmpConfig => HttpMethod::Post,
        Operation::LinearResetMmp => HttpMethod::Post,
    }
}

/// The path and method of an operation.
pub fn route(op: Operation) -> (r: (&'static str, HttpMethod))
    ensures
        r.0@ == route_path(op),
        r.1 == route_method(op),
{
    match op {
        Operation::WsAuth => ("/v1/ws/auth", HttpMethod::Get),
        Operation::UmAccountMode => ("/um/v1/account_mode", HttpMethod::Get),
        Operation::UmAccounts => ("/um/v1/accounts", HttpMethod::Get),
        Operation::UmTransactionLogs => ("/um/v1/transactions", HttpMethod::Get),
        Operation::SpotAccountConfigs => ("/spot/v1/account_configs", HttpMethod::Get),
        Operation::SpotWsAuth => ("/spot/v1/ws/auth", HttpMethod::Get),
        Operation::SpotAccounts => ("/spot/v1/accounts", HttpMethod::Get),
        Operation::SpotTransactionLogs => ("/spot/v1/transactions", HttpMethod::Get),
        Operation::SpotOrders => ("/spot/v1/orders", HttpMethod::Get),
        Operation::SpotOpenOrders => ("/spot/v1/open_orders", HttpMethod::Get),
        Operation::SpotUserTrades => ("/spot/v1/user/trades", HttpMethod::Get),
        Operation::SpotNewOrder => ("/spot/v1/orders", HttpMethod::Post),
        Operation::SpotAmendOrder => ("/spot/v1/amend_orders", HttpMethod::Post),
        Operation::SpotCancelOrder => ("/spot/v1/cancel_orders", HttpMethod::Post),
        Operation::SpotBatchNewOrders => ("/spot/v1/batchorders", HttpMethod::Post),
        Operation::SpotBatchAmendOrders => ("/spot/v1/amend_batchorders", HttpMethod::Post),
        Operation::SpotEnableCod => ("/spot/v1/account_configs/cod", HttpMethod::Post),
        Operation::SpotMmpState => ("/spot/v1/mmp_state", HttpMethod::Get),
        Operation::SpotUpdateMmpConfig => ("/spot/v1/update_mmp_config", HttpMethod::Post),
        Operation::SpotResetMmp => ("/spot/v1/reset_mmp", HttpMethod::Post),
        Operation::LinearAccountConfigs => ("/linear/v1/account_configs", HttpMethod::Get),
        Operation::LinearPositions => ("/linear/v1/positions", HttpMethod::Get),
        Operation::LinearOrders => ("/linear/v1/orders", HttpMethod::Get),
        Operation::LinearOpenOrders => ("/linear/v1/open_orders", HttpMethod::Get),
        Operation::LinearUserTrades => ("/linear/v1/user/trades", HttpMethod::Get),
        Operation::LinearNewOrder => ("/linear/v1/orders", HttpMethod::Post),
        Operation::LinearAmendOrder => ("/linear/v1/amend_orders", HttpMethod::Post),
        Operation::LinearCancelOrder => ("/linear/v1/cancel_orders", HttpMethod::Post),
        Operation::LinearBatchNewOrders => ("/linear/v1/batchorders", HttpMethod::Post),
        Operation::LinearBatchAmendOrders => ("/linear/v1/amend_batchorders", HttpMethod::Post),
        Operation::LinearMmpState => ("/linear/v1/mmp_state", HttpMethod::Get),
        Operation::LinearUpdateMmpConfig => ("/linear/v1/update_mmp_config", HttpMethod::Post),
        Operation::LinearResetMmp => ("/linear/v1/reset_mmp", HttpMethod::Post),
    }
}

} // verus!
